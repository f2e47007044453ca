//! Rooms, and where they are kept.

use vstd::prelude::*;

use crate::text;
use crate::text::{to_decimal, trim};

verus! {

/// Why a room cannot be.
#[derive(Debug, PartialEq, Eq, Structural)]
pub enum DomainError {
    EmptyRoomId,
    InvalidCapacity(usize),
}

impl Clone for DomainError {
    fn clone(&self) -> (r: Self)
        ensures
            r == *self,
    {
        match self {
            DomainError::EmptyRoomId => DomainError::EmptyRoomId,
            DomainError::InvalidCapacity(capacity) => DomainError::InvalidCapacity(*capacity),
        }
    }
}

impl DomainError {
    /// What to tell a person.
    pub fn message(&self) -> (r: String)
        ensures
            r@ == match *self {
                DomainError::EmptyRoomId => "room id cannot be empty"@,
                DomainError::InvalidCapacity(capacity) =>
                    "room capacity must be greater than 0, got "@ + text::decimal(capacity as nat),
            },
    {
        match self {
            DomainError::EmptyRoomId => "room id cannot be empty".to_owned(),
            DomainError::InvalidCapacity(capacity) =>
                "room capacity must be greater than 0, got ".to_owned().concat(
                to_decimal(*capacity).as_str(),
            ),
        }
    }
}

/// The text of a room id: not empty, and without whitespace at either end.
pub open spec fn is_room_id(id: Seq<char>) -> bool {
    id.len() > 0 && text::trimmed(id) == id
}

/// The name of a room.
#[derive(Debug, PartialEq, Eq, Hash)]
pub struct RoomId(String);

impl View for RoomId {
    type V = Seq<char>;

    closed spec fn view(&self) -> Seq<char> {
        self.0@
    }
}

impl RoomId {
    #[verifier::type_invariant]
    spec fn is_normal(self) -> bool {
        is_room_id(self.0@)
    }

    /// The room id that `value` spells, whatever whitespace stands around it.
    pub fn new(value: &str) -> (r: Result<Self, DomainError>)
        ensures
            match r {
                Ok(id) => id@ == text::trimmed(value@) && is_room_id(id@),
                Err(error) => error == DomainError::EmptyRoomId && text::trimmed(value@).len() == 0,
            },
    {
        let normalized = trim(value);
        if normalized.is_empty() {
            return Err(DomainError::EmptyRoomId);
        }
        proof {
            text::lemma_trimmed(value@);
        }
        Ok(RoomId(normalized.to_owned()))
    }

    /// The text of the id.
    pub fn as_str(&self) -> (r: &str)
        ensures
            r@ == self@,
            is_room_id(r@),
    {
        proof {
            use_type_invariant(self);
        }
        self.0.as_str()
    }
}

impl Clone for RoomId {
    fn clone(&self) -> (r: Self)
        ensures
            r == *self,
    {
        proof {
            use_type_invariant(self);
        }
        RoomId(self.0.clone())
    }
}

/// What there is to know of a room.
pub struct RoomRecord {
    pub id: Seq<char>,
    pub capacity: usize,
}

/// A room, and how many it holds.
#[derive(Debug, PartialEq, Eq)]
pub struct Room {
    id: RoomId,
    capacity: usize,
}

impl View for Room {
    type V = RoomRecord;

    closed spec fn view(&self) -> RoomRecord {
        RoomRecord { id: self.id@, capacity: self.capacity }
    }
}

impl Room {
    #[verifier::type_invariant]
    spec fn holds_somebody(self) -> bool {
        self.capacity > 0
    }

    /// A room that holds `capacity` people, at least one.
    pub fn new(id: RoomId, capacity: usize) -> (r: Result<Self, DomainError>)
        ensures
            match r {
                Ok(room) => capacity > 0 && room@ == (RoomRecord { id: id@, capacity }),
                Err(error) => capacity == 0 && error == DomainError::InvalidCapacity(0),
            },
    {
        if capacity == 0 {
            return Err(DomainError::InvalidCapacity(capacity));
        }
        Ok(Room { id, capacity })
    }

    /// The room's name.
    pub fn id(&self) -> (r: &RoomId)
        ensures
            r@ == self@.id,
    {
        &self.id
    }

    /// How many the room holds.
    pub fn capacity(&self) -> (r: usize)
        ensures
            r == self@.capacity,
            r > 0,
    {
        proof {
            use_type_invariant(self);
        }
        self.capacity
    }
}

impl Clone for Room {
    fn clone(&self) -> (r: Self)
        ensures
            r == *self,
    {
        proof {
            use_type_invariant(self);
        }
        Room { id: self.id.clone(), capacity: self.capacity }
    }
}

/// The records of a list of rooms.
pub open spec fn records(rooms: Seq<Room>) -> Seq<RoomRecord> {
    rooms.map_values(|room: Room| room@)
}

/// The record of a room that may be missing.
pub open spec fn record_of(room: Option<Room>) -> Option<RoomRecord> {
    match room {
        Some(room) => Some(room@),
        None => None,
    }
}

/// A place where rooms are kept. Each kind of place says itself what saving, finding and listing
/// come to.
pub trait RoomRepository {
    /// Saving `room` in `before` can lead to `after`.
    spec fn saved(before: &Self, room: RoomRecord, after: &Self) -> bool;

    /// Looking for `id` can give `room`.
    spec fn found(&self, id: Seq<char>, room: Option<RoomRecord>) -> bool;

    /// Listing the rooms can give `rooms`.
    spec fn listed(&self, rooms: Seq<RoomRecord>) -> bool;

    /// Keeps a room.
    fn save(&mut self, room: Room)
        ensures
            Self::saved(old(self), room@, final(self)),
    ;

    /// The room of that name.
    fn get(&self, id: &RoomId) -> (r: Option<Room>)
        ensures
            self.found(id@, record_of(r)),
    ;

    /// The rooms that are kept here.
    fn list(&self) -> (r: Vec<Room>)
        ensures
            self.listed(records(r@)),
    ;
}

/// The records of rooms stand where the rooms stand, and a room that is missing has none.
pub proof fn law_records_keep_their_places(rooms: Seq<Room>, i: int)
    requires
        0 <= i < rooms.len(),
    ensures
        records(rooms).len() == rooms.len(),
        records(rooms)[i] == rooms[i]@,
        record_of(Some(rooms[i])) == Some(rooms[i]@),
        record_of(None) is None,
{
}

/// A text is a room id exactly if it is not empty and neither starts nor ends with whitespace.
pub proof fn law_room_ids_have_no_space_around(id: Seq<char>)
    ensures
        is_room_id(id) <==> id.len() > 0 && !text::is_whitespace(id.first())
            && !text::is_whitespace(id.last()),
{
    text::lemma_trimmed(id);
    if id.len() > 0 && !text::is_whitespace(id.first()) && !text::is_whitespace(id.last()) {
        let none = Seq::<char>::empty();
        text::law_trimming_keeps_the_rest(none, id, none);
        assert(none + id + none =~= id);
    }
}

/// The text of a room id spells that same id again.
pub proof fn law_room_ids_are_stable(value: Seq<char>)
    requires
        text::trimmed(value).len() > 0,
    ensures
        is_room_id(text::trimmed(value)),
        text::trimmed(text::trimmed(value)) == text::trimmed(value),
{
    text::lemma_trimmed(value);
}

} // verus!
