//! Creating and listing rooms.

use vstd::prelude::*;

use crate::domain;
use crate::domain::{DomainError, Room, RoomId, RoomRecord, RoomRepository};
use crate::text;
use crate::text::at_most;

verus! {

/// A wish for a room.
#[derive(Debug, PartialEq, Eq)]
pub struct CreateRoomCommand {
    pub room_id: String,
    pub capacity: usize,
}

impl Clone for CreateRoomCommand {
    fn clone(&self) -> (r: Self)
        ensures
            r == *self,
    {
        CreateRoomCommand { room_id: self.room_id.clone(), capacity: self.capacity }
    }
}

/// A room as it is shown.
#[derive(Debug, PartialEq, Eq)]
pub struct RoomView {
    pub room_id: String,
    pub capacity: usize,
}

impl View for RoomView {
    type V = RoomRecord;

    open spec fn view(&self) -> RoomRecord {
        RoomRecord { id: self.room_id@, capacity: self.capacity }
    }
}

impl Clone for RoomView {
    fn clone(&self) -> (r: Self)
        ensures
            r == *self,
    {
        RoomView { room_id: self.room_id.clone(), capacity: self.capacity }
    }
}

/// The records of a list of shown rooms.
pub open spec fn shown(rooms: Seq<RoomView>) -> Seq<RoomRecord> {
    rooms.map_values(|room: RoomView| room@)
}

/// The rooms of that name, in their order.
pub open spec fn named(rooms: Seq<RoomRecord>, id: Seq<char>) -> Seq<RoomRecord> {
    rooms.filter(|room: RoomRecord| room.id == id)
}

/// The rooms stand in the order of their names.
pub open spec fn in_order(rooms: Seq<RoomRecord>) -> bool {
    forall|i: int, j: int|
        0 <= i < j < rooms.len() ==> text::text_le((#[trigger] rooms[i]).id, (#[trigger] rooms[j]).id)
}

/// `sorted` holds the rooms of `rooms`, no more and no fewer, in the order of their names; rooms
/// of the same name keep their order.
pub open spec fn is_sorted_form(sorted: Seq<RoomRecord>, rooms: Seq<RoomRecord>) -> bool {
    &&& in_order(sorted)
    &&& forall|id: Seq<char>| #[trigger] named(sorted, id) == named(rooms, id)
}

proof fn lemma_filter_none(rooms: Seq<RoomRecord>, id: Seq<char>)
    requires
        forall|i: int| 0 <= i < rooms.len() ==> (#[trigger] rooms[i]).id != id,
    ensures
        named(rooms, id) == Seq::<RoomRecord>::empty(),
    decreases rooms.len(),
{
    reveal(Seq::filter);
    if rooms.len() > 0 {
        let front = rooms.drop_last();
        assert forall|i: int| 0 <= i < front.len() implies (#[trigger] front[i]).id != id by {
            assert(rooms[i].id != id);
        }
        lemma_filter_none(front, id);
    }
}

proof fn lemma_filter_one(room: RoomRecord, id: Seq<char>)
    ensures
        named(seq![room], id) == if room.id == id {
            seq![room]
        } else {
            Seq::<RoomRecord>::empty()
        },
{
    reveal(Seq::filter);
    assert(seq![room].drop_last() =~= Seq::<RoomRecord>::empty());
    assert(named(seq![room].drop_last(), id) =~= Seq::<RoomRecord>::empty());
    assert(seq![room].last() == room);
    assert(Seq::<RoomRecord>::empty().push(room) =~= seq![room]);
}

/// A room that goes in behind the last one that does not stand after it keeps a list sorted.
proof fn lemma_insert_in_order(
    sorted: Seq<RoomRecord>,
    rooms: Seq<RoomRecord>,
    room: RoomRecord,
    at: int,
)
    requires
        is_sorted_form(sorted, rooms),
        0 <= at <= sorted.len(),
        at > 0 ==> text::text_le(sorted[at - 1].id, room.id),
        forall|i: int|
            at <= i < sorted.len() ==> !text::text_le((#[trigger] sorted[i]).id, room.id),
    ensures
        is_sorted_form(sorted.insert(at, room), rooms.push(room)),
{
    let result = sorted.insert(at, room);
    let front = sorted.take(at);
    let back = sorted.skip(at);
    assert(sorted =~= front + back);
    assert(result =~= (front + seq![room]) + back);
    assert(rooms.push(room) =~= rooms + seq![room]);
    assert forall|id: Seq<char>| #[trigger] named(result, id) == named(rooms.push(room), id) by {
        let pred = |r: RoomRecord| r.id == id;
        Seq::filter_distributes_over_add(front, back, pred);
        Seq::filter_distributes_over_add(front + seq![room], back, pred);
        Seq::filter_distributes_over_add(front, seq![room], pred);
        Seq::filter_distributes_over_add(rooms, seq![room], pred);
        assert(named(sorted, id) == named(rooms, id));
        assert(named(sorted, id) == named(front, id) + named(back, id));
        assert(named(result, id) == (named(front, id) + named(seq![room], id)) + named(back, id));
        assert(named(rooms.push(room), id) == named(rooms, id) + named(seq![room], id));
        lemma_filter_one(room, id);
        if id == room.id {
            assert forall|i: int| 0 <= i < back.len() implies (#[trigger] back[i]).id != id by {
                assert(back[i] == sorted[at + i]);
                text::lemma_text_le_total(room.id, room.id);
            }
            lemma_filter_none(back, id);
        }
        assert(named(result, id) =~= named(rooms.push(room), id));
    }
    assert forall|i: int, j: int| 0 <= i < j < result.len() implies text::text_le(
        (#[trigger] result[i]).id,
        (#[trigger] result[j]).id,
    ) by {
        if j == at {
            if i < at - 1 {
                text::lemma_text_le_transitive(sorted[i].id, sorted[at - 1].id, room.id);
            }
        } else if i == at {
            text::lemma_text_le_total(room.id, sorted[j - 1].id);
        } else {
            let i0 = if i < at { i } else { i - 1 };
            let j0 = if j < at { j } else { j - 1 };
            assert(result[i] == sorted[i0] && result[j] == sorted[j0]);
        }
    }
}

proof fn lemma_named_counts(rooms: Seq<RoomRecord>, room: RoomRecord)
    ensures
        named(rooms, room.id).to_multiset().count(room) == rooms.to_multiset().count(room),
    decreases rooms.len(),
{
    reveal(Seq::filter);
    broadcast use vstd::seq_lib::group_to_multiset_ensures;

    if rooms.len() > 0 {
        let front = rooms.drop_last();
        lemma_named_counts(front, room);
        assert(rooms =~= front.push(rooms.last()));
    } else {
        assert(named(rooms, room.id) =~= rooms);
    }
}

/// Sorting rooms by their names gives the same rooms, each as often as before, and each stands
/// before or beside every later one.
pub proof fn law_sorting_keeps_every_room(sorted: Seq<RoomRecord>, rooms: Seq<RoomRecord>)
    requires
        is_sorted_form(sorted, rooms),
    ensures
        sorted.to_multiset() == rooms.to_multiset(),
        sorted.len() == rooms.len(),
        forall|i: int, j: int|
            0 <= i < j < sorted.len() ==> text::text_le(
                (#[trigger] sorted[i]).id,
                (#[trigger] sorted[j]).id,
            ),
{
    assert forall|room: RoomRecord| #[trigger]
        sorted.to_multiset().count(room) == rooms.to_multiset().count(room) by {
        lemma_named_counts(sorted, room);
        lemma_named_counts(rooms, room);
        assert(named(sorted, room.id) == named(rooms, room.id));
    }
    assert(sorted.to_multiset() =~= rooms.to_multiset());
    broadcast use vstd::seq_lib::group_to_multiset_ensures;

    assert(sorted.to_multiset().len() == sorted.len());
    assert(rooms.to_multiset().len() == rooms.len());
}

/// Two rooms of the same name are not swapped by sorting.
pub proof fn law_sorting_is_stable(sorted: Seq<RoomRecord>, rooms: Seq<RoomRecord>, id: Seq<char>)
    requires
        is_sorted_form(sorted, rooms),
    ensures
        sorted.filter(|room: RoomRecord| room.id == id) == rooms.filter(
            |room: RoomRecord| room.id == id,
        ),
{
    assert(named(sorted, id) == named(rooms, id));
}

/// What is shown of a room is its name and its capacity.
pub proof fn law_rooms_are_shown_as_they_are(rooms: Seq<RoomView>, i: int)
    requires
        0 <= i < rooms.len(),
    ensures
        shown(rooms).len() == rooms.len(),
        shown(rooms)[i].id == rooms[i].room_id@,
        shown(rooms)[i].capacity == rooms[i].capacity,
{
}

/// The rooms as they are shown, in the order of their names.
pub fn sorted_views(rooms: &Vec<Room>) -> (r: Vec<RoomView>)
    ensures
        is_sorted_form(shown(r@), domain::records(rooms@)),
        r@.len() == rooms@.len(),
        shown(r@).to_multiset() == domain::records(rooms@).to_multiset(),
        forall|i: int, j: int|
            0 <= i < j < r@.len() ==> text::text_le(
                (#[trigger] r@[i]).room_id@,
                (#[trigger] r@[j]).room_id@,
            ),
{
    let mut r: Vec<RoomView> = Vec::new();
    let mut i: usize = 0;
    assert(shown(r@) =~= domain::records(rooms@).take(0));
    while i < rooms.len()
        invariant
            i <= rooms@.len(),
            is_sorted_form(shown(r@), domain::records(rooms@).take(i as int)),
        decreases rooms@.len() - i,
    {
        let view = RoomView {
            room_id: rooms[i].id().as_str().to_owned(),
            capacity: rooms[i].capacity(),
        };
        let ghost before = shown(r@);
        let mut at: usize = r.len();
        while at > 0 && !at_most(r[at - 1].room_id.as_str(), view.room_id.as_str())
            invariant
                at <= r@.len(),
                before == shown(r@),
                forall|k: int|
                    at <= k < r@.len() ==> !text::text_le((#[trigger] before[k]).id, view@.id),
            decreases at,
        {
            at = at - 1;
        }
        proof {
            let done = domain::records(rooms@).take(i as int);
            lemma_insert_in_order(before, done, view@, at as int);
            assert(domain::records(rooms@).take(i + 1) =~= done.push(view@));
        }
        r.insert(at, view);
        assert(shown(r@) =~= before.insert(at as int, view@));
        i = i + 1;
    }
    proof {
        let all = domain::records(rooms@);
        assert(all.take(rooms@.len() as int) =~= all);
        law_sorting_keeps_every_room(shown(r@), all);
        assert forall|i: int, j: int| 0 <= i < j < r@.len() implies text::text_le(
            (#[trigger] r@[i]).room_id@,
            (#[trigger] r@[j]).room_id@,
        ) by {
            assert(text::text_le(shown(r@)[i].id, shown(r@)[j].id));
        }
    }
    r
}

/// Creates and lists the rooms of a repository.
pub struct RoomApplicationService<R: RoomRepository> {
    room_repository: R,
}

impl<R: RoomRepository> RoomApplicationService<R> {
    /// The repository that the rooms are in.
    pub closed spec fn repository(&self) -> R {
        self.room_repository
    }

    /// A service on a repository.
    pub fn new(room_repository: R) -> (r: Self)
        ensures
            r.repository() == room_repository,
    {
        RoomApplicationService { room_repository }
    }

    /// Creates a room and keeps it; shows what it has become. What makes no room changes nothing.
    pub fn create_room(&mut self, command: CreateRoomCommand) -> (r: Result<RoomView, DomainError>)
        ensures
            ({
                let id = text::trimmed(command.room_id@);
                match r {
                    Ok(view) => {
                        &&& id.len() > 0
                        &&& command.capacity > 0
                        &&& view.room_id@ == id
                        &&& view.capacity == command.capacity
                        &&& view@ == (RoomRecord { id, capacity: command.capacity })
                        &&& R::saved(&old(self).repository(), view@, &final(self).repository())
                    },
                    Err(error) => {
                        &&& final(self).repository() == old(self).repository()
                        &&& if id.len() == 0 {
                            error == DomainError::EmptyRoomId
                        } else {
                            command.capacity == 0 && error == DomainError::InvalidCapacity(0)
                        }
                    },
                }
            }),
    {
        let room_id = match RoomId::new(command.room_id.as_str()) {
            Ok(room_id) => room_id,
            Err(error) => return Err(error),
        };
        let room = match Room::new(room_id.clone(), command.capacity) {
            Ok(room) => room,
            Err(error) => return Err(error),
        };
        let room_view = RoomView {
            room_id: room_id.as_str().to_owned(),
            capacity: command.capacity,
        };
        self.room_repository.save(room);
        Ok(room_view)
    }

    /// The rooms that the repository lists, in the order of their names.
    pub fn list_rooms(&self) -> (r: Vec<RoomView>)
        ensures
            exists|listed: Seq<RoomRecord>| #[trigger]
                self.repository().listed(listed) && is_sorted_form(shown(r@), listed)
                    && r@.len() == listed.len() && shown(r@).to_multiset() == listed.to_multiset(),
            forall|i: int, j: int|
                0 <= i < j < r@.len() ==> text::text_le(
                    (#[trigger] r@[i]).room_id@,
                    (#[trigger] r@[j]).room_id@,
                ),
    {
        let rooms = self.room_repository.list();
        assert(self.repository().listed(domain::records(rooms@)));
        sorted_views(&rooms)
    }
}

} // verus!
