//! Rooms in memory.

use vstd::prelude::*;

use crate::application;
use crate::domain;
use crate::domain::{DomainError, Room, RoomId, RoomRecord, RoomRepository};
use crate::table;
use crate::table::Table;
use crate::text;

verus! {

/// Keeps rooms in memory, one for each name.
#[derive(Debug)]
pub struct InMemoryRoomRepository {
    rooms: Table<Room>,
}

spec fn capacities(rooms: Map<Seq<char>, Room>) -> Map<Seq<char>, usize> {
    rooms.map_values(|room: Room| room@.capacity)
}

spec fn keyed_by_name(rooms: Map<Seq<char>, Room>) -> bool {
    forall|id: Seq<char>| #[trigger] rooms.contains_key(id) ==> rooms[id]@.id == id
}

/// The capacity of each room, by the room's name.
impl View for InMemoryRoomRepository {
    type V = Map<Seq<char>, usize>;

    closed spec fn view(&self) -> Map<Seq<char>, usize> {
        capacities(self.rooms@)
    }
}

/// The names of rooms, in their order.
pub open spec fn names(rooms: Seq<RoomRecord>) -> Seq<Seq<char>> {
    rooms.map_values(|room: RoomRecord| room.id)
}

impl InMemoryRoomRepository {
    #[verifier::type_invariant]
    spec fn is_keyed(self) -> bool {
        keyed_by_name(self.rooms@)
    }

    /// A repository without rooms.
    pub fn new() -> (r: Self)
        ensures
            r@ == Map::<Seq<char>, usize>::empty(),
    {
        let r = InMemoryRoomRepository { rooms: Table::new() };
        assert(r@ =~= Map::<Seq<char>, usize>::empty());
        r
    }

    /// The repository that the server starts with.
    pub fn with_seed_data() -> (r: Result<Self, DomainError>)
        ensures
            r matches Ok(repository) && repository@ == map![
                "lobby"@ => 32usize,
                "focus"@ => 12usize,
                "townhall"@ => 200usize,
            ],
    {
        let mut repository = Self::new();
        proof {
            reveal_strlit("lobby");
            reveal_strlit("focus");
            reveal_strlit("townhall");
        }
        repository.seed("lobby", 32)?;
        repository.seed("focus", 12)?;
        repository.seed("townhall", 200)?;
        Ok(repository)
    }

    fn seed(&mut self, room_id: &str, capacity: usize) -> (r: Result<(), DomainError>)
        requires
            domain::is_room_id(room_id@),
            capacity > 0,
        ensures
            r is Ok,
            final(self)@ == old(self)@.insert(room_id@, capacity),
    {
        let room = Room::new(RoomId::new(room_id)?, capacity)?;
        self.save(room);
        Ok(())
    }
}

impl Default for InMemoryRoomRepository {
    fn default() -> (r: Self)
        ensures
            r@ == Map::<Seq<char>, usize>::empty(),
    {
        Self::new()
    }
}

impl RoomRepository for InMemoryRoomRepository {
    /// A room takes the place of the one that had its name; all others stay.
    open spec fn saved(before: &Self, room: RoomRecord, after: &Self) -> bool {
        after@ == before@.insert(room.id, room.capacity)
    }

    /// The room of that name, if there is one.
    open spec fn found(&self, id: Seq<char>, room: Option<RoomRecord>) -> bool {
        room == if self@.contains_key(id) {
            Some(RoomRecord { id, capacity: self@[id] })
        } else {
            None
        }
    }

    /// Each room once, in any order.
    open spec fn listed(&self, rooms: Seq<RoomRecord>) -> bool {
        &&& table::enumerates(names(rooms), self@.dom())
        &&& forall|i: int|
            0 <= i < rooms.len() ==> (#[trigger] rooms[i]).capacity == self@[rooms[i].id]
    }

    fn save(&mut self, room: Room) {
        proof {
            use_type_invariant(&*self);
        }
        let ghost before = self.rooms@;
        let mut rooms: Table<Room> = Table::new();
        std::mem::swap(&mut rooms, &mut self.rooms);
        rooms.insert(room.id().as_str().to_owned(), room);
        assert(rooms@ == before.insert(room@.id, room));
        assert(capacities(rooms@) =~= capacities(before).insert(room@.id, room@.capacity));
        self.rooms = rooms;
    }

    fn get(&self, id: &RoomId) -> (r: Option<Room>) {
        proof {
            use_type_invariant(self);
        }
        match self.rooms.get(id.as_str()) {
            Some(room) => Some(room.clone()),
            None => None,
        }
    }

    fn list(&self) -> (r: Vec<Room>) {
        proof {
            use_type_invariant(self);
        }
        let total: usize = self.rooms.len();
        let mut r: Vec<Room> = Vec::new();
        let mut i: usize = 0;
        while i < total
            invariant
                i <= total,
                total == self.rooms.order().len(),
                keyed_by_name(self.rooms@),
                r@.len() == i,
                forall|j: int|
                    0 <= j < i ==> (#[trigger] r@[j])@.id == self.rooms.order()[j] && r@[j]
                        == self.rooms@[r@[j]@.id] && self.rooms@.contains_key(r@[j]@.id),
            decreases total - i,
        {
            let (_, room) = self.rooms.at(i);
            r.push(room.clone());
            i = i + 1;
        }
        assert(names(domain::records(r@)) =~= self.rooms.order());
        assert(self@.dom() =~= self.rooms@.dom());
        r
    }
}

impl Clone for InMemoryRoomRepository {
    fn clone(&self) -> (r: Self)
        ensures
            r@ == self@,
    {
        let rooms = self.list();
        let mut r = Self::new();
        let ghost listed = domain::records(rooms@);
        let mut i: usize = 0;
        while i < rooms.len()
            invariant
                i <= rooms@.len(),
                listed == domain::records(rooms@),
                self.listed(listed),
                forall|id: Seq<char>| #[trigger]
                    r@.contains_key(id) <==> names(listed).take(i as int).contains(id),
                forall|id: Seq<char>| #[trigger] r@.contains_key(id) ==> r@[id] == self@[id],
            decreases rooms@.len() - i,
        {
            r.save(rooms[i].clone());
            proof {
                let taken = names(listed).take(i as int);
                let added = names(listed)[i as int];
                assert(names(listed).take(i + 1) =~= taken.push(added));
                assert(listed[i as int].capacity == self@[listed[i as int].id]);
                assert forall|id: Seq<char>| #[trigger]
                    r@.contains_key(id) <==> names(listed).take(i + 1).contains(id) by {
                    table::lemma_push_contains(taken, added, id);
                }
            }
            i = i + 1;
        }
        proof {
            assert(names(listed).take(rooms@.len() as int) =~= names(listed));
            assert forall|id: Seq<char>| r@.contains_key(id) <==> self@.contains_key(id) by {
                assert(names(listed).contains(id) <==> names(listed).to_set().contains(id));
            }
            assert(r@ =~= self@);
        }
        r
    }
}

/// A repository without rooms finds nothing and lists nothing.
pub proof fn law_empty_repository_has_no_rooms(
    repository: InMemoryRoomRepository,
    id: Seq<char>,
    found: Option<RoomRecord>,
    listed: Seq<RoomRecord>,
)
    requires
        repository@ == Map::<Seq<char>, usize>::empty(),
    ensures
        repository.found(id, found) <==> found is None,
        repository.listed(listed) ==> listed.len() == 0,
{
    if repository.listed(listed) && listed.len() > 0 {
        assert(names(listed)[0] == listed[0].id);
        assert(names(listed).to_set().contains(listed[0].id));
    }
}

/// A listing names a room exactly if the repository finds it, once, and as it is found.
pub proof fn law_listed_rooms_are_those_found(
    repository: InMemoryRoomRepository,
    listed: Seq<RoomRecord>,
    room: RoomRecord,
)
    requires
        repository.listed(listed),
    ensures
        listed.contains(room) <==> repository.found(room.id, Some(room)),
        forall|i: int, j: int|
            0 <= i < j < listed.len() ==> (#[trigger] listed[i]).id != (#[trigger] listed[j]).id,
{
    assert(forall|i: int| 0 <= i < listed.len() ==> names(listed)[i] == (#[trigger] listed[i]).id);
    if listed.contains(room) {
        let i = listed.index_of(room);
        assert(names(listed)[i] == room.id);
        assert(names(listed).to_set().contains(room.id));
        assert(listed[i].capacity == repository@[listed[i].id]);
    }
    if repository.found(room.id, Some(room)) {
        assert(names(listed).to_set().contains(room.id));
        let i = names(listed).index_of(room.id);
        assert(listed[i].id == room.id);
        assert(listed[i].capacity == repository@[listed[i].id]);
        assert(listed[i] == room);
    }
    assert forall|i: int, j: int| 0 <= i < j < listed.len() implies (#[trigger] listed[i]).id != (
    #[trigger] listed[j]).id by {
        assert(names(listed)[i] != names(listed)[j]);
    }
}

/// A room that was saved is found under its name.
pub proof fn law_saved_room_is_found(
    before: InMemoryRoomRepository,
    room: RoomRecord,
    after: InMemoryRoomRepository,
    found: Option<RoomRecord>,
)
    requires
        InMemoryRoomRepository::saved(&before, room, &after),
        after.found(room.id, found),
    ensures
        found == Some(room),
{
}

/// Saving a room changes nothing about rooms of other names.
pub proof fn law_saving_keeps_other_rooms(
    before: InMemoryRoomRepository,
    room: RoomRecord,
    after: InMemoryRoomRepository,
    id: Seq<char>,
    found: Option<RoomRecord>,
)
    requires
        InMemoryRoomRepository::saved(&before, room, &after),
        id != room.id,
    ensures
        after.found(id, found) <==> before.found(id, found),
{
}

/// Of two rooms saved under one name the second remains, as if the first had never been.
pub proof fn law_last_save_wins(
    before: InMemoryRoomRepository,
    first: RoomRecord,
    between: InMemoryRoomRepository,
    second: RoomRecord,
    after: InMemoryRoomRepository,
)
    requires
        InMemoryRoomRepository::saved(&before, first, &between),
        InMemoryRoomRepository::saved(&between, second, &after),
        first.id == second.id,
    ensures
        InMemoryRoomRepository::saved(&before, second, &after),
{
    assert(before@.insert(first.id, first.capacity).insert(second.id, second.capacity)
        =~= before@.insert(second.id, second.capacity));
}

proof fn lemma_named_membership(rooms: Seq<RoomRecord>, room: RoomRecord)
    ensures
        application::named(rooms, room.id).contains(room) <==> rooms.contains(room),
    decreases rooms.len(),
{
    reveal(Seq::filter);
    if rooms.len() > 0 {
        let front = rooms.drop_last();
        lemma_named_membership(front, room);
        let kept = application::named(front, room.id);
        assert(rooms =~= front.push(rooms.last()));
        if rooms.contains(room) {
            if rooms.last() == room {
                assert(kept.push(room).last() == room);
            } else {
                let i = rooms.index_of(room);
                assert(front[i] == room);
                let k = kept.index_of(room);
                assert(kept.push(rooms.last())[k] == room);
            }
        }
        if application::named(rooms, room.id).contains(room) {
            let k = application::named(rooms, room.id).index_of(room);
            if k < kept.len() {
                assert(kept[k] == room);
                let i = front.index_of(room);
                assert(rooms[i] == room);
            } else {
                assert(rooms[rooms.len() - 1] == room);
            }
        }
    }
}

proof fn lemma_named_once(rooms: Seq<RoomRecord>, id: Seq<char>)
    requires
        names(rooms).no_duplicates(),
    ensures
        application::named(rooms, id).len() <= 1,
        application::named(rooms, id).len() == 1 ==> names(rooms).contains(id),
    decreases rooms.len(),
{
    reveal(Seq::filter);
    if rooms.len() > 0 {
        let front = rooms.drop_last();
        let last = rooms.len() - 1;
        assert(names(front) =~= names(rooms).drop_last());
        lemma_named_once(front, id);
        assert(names(rooms)[last] == rooms.last().id);
        if names(front).contains(id) {
            let i = names(front).index_of(id);
            assert(names(rooms)[i] == id);
        }
    }
}

proof fn lemma_named_twice(rooms: Seq<RoomRecord>, i: int, j: int)
    requires
        0 <= i < j < rooms.len(),
        rooms[i].id == rooms[j].id,
    ensures
        application::named(rooms, rooms[i].id).len() >= 2,
{
    let id = rooms[i].id;
    let front = rooms.take(j);
    let back = rooms.skip(j);
    assert(rooms =~= front + back);
    Seq::filter_distributes_over_add(front, back, |room: RoomRecord| room.id == id);
    assert(front[i] == rooms[i] && back[0] == rooms[j]);
    lemma_named_membership(front, rooms[i]);
    lemma_named_membership(back, rooms[j]);
    assert(application::named(front, id).contains(rooms[i]));
    assert(application::named(back, id).contains(rooms[j]));
}

/// The sorted form of a listing of the rooms is a listing of the rooms: each stands there once,
/// with its capacity.
pub proof fn law_sorting_keeps_the_listing(
    repository: InMemoryRoomRepository,
    listed: Seq<RoomRecord>,
    sorted: Seq<RoomRecord>,
)
    requires
        repository.listed(listed),
        application::is_sorted_form(sorted, listed),
    ensures
        repository.listed(sorted),
{
    assert forall|i: int, j: int| 0 <= i < j < sorted.len() implies sorted[i].id
        != sorted[j].id by {
        if sorted[i].id == sorted[j].id {
            lemma_named_twice(sorted, i, j);
            lemma_named_once(listed, sorted[i].id);
            assert(application::named(sorted, sorted[i].id) == application::named(
                listed,
                sorted[i].id,
            ));
        }
    }
    assert forall|i: int, j: int|
        0 <= i < names(sorted).len() && 0 <= j < names(sorted).len() && i != j implies names(
        sorted,
    )[i] != names(sorted)[j] by {
        if i < j {
            assert(sorted[i].id != sorted[j].id);
        } else {
            assert(sorted[j].id != sorted[i].id);
        }
    }
    assert forall|i: int| 0 <= i < sorted.len() implies #[trigger] listed.contains(sorted[i]) by {
        assert(sorted.contains(sorted[i]));
        lemma_named_membership(sorted, sorted[i]);
        lemma_named_membership(listed, sorted[i]);
        assert(application::named(sorted, sorted[i].id) == application::named(
            listed,
            sorted[i].id,
        ));
    }
    assert forall|i: int| 0 <= i < sorted.len() implies (#[trigger] sorted[i]).capacity
        == repository@[sorted[i].id] by {
        assert(listed.contains(sorted[i]));
        let k = listed.index_of(sorted[i]);
        assert(listed[k] == sorted[i]);
    }
    assert forall|id: Seq<char>| names(sorted).to_set().contains(id)
        <==> repository@.dom().contains(id) by {
        if names(sorted).contains(id) {
            let i = names(sorted).index_of(id);
            assert(listed.contains(sorted[i]));
            let k = listed.index_of(sorted[i]);
            assert(names(listed)[k] == id);
            assert(names(listed).to_set().contains(id));
        }
        if repository@.dom().contains(id) {
            assert(names(listed).to_set().contains(id));
            let k = names(listed).index_of(id);
            let room = listed[k];
            assert(listed.contains(room));
            lemma_named_membership(listed, room);
            lemma_named_membership(sorted, room);
            assert(application::named(sorted, id) == application::named(listed, id));
            let i = sorted.index_of(room);
            assert(names(sorted)[i] == id);
        }
    }
    assert(names(sorted).to_set() =~= repository@.dom());
}

/// A room that was created is listed, in whatever order the repository hands its rooms out.
pub proof fn law_created_room_is_listed(
    before: InMemoryRoomRepository,
    room: RoomRecord,
    after: InMemoryRoomRepository,
    listed: Seq<RoomRecord>,
    sorted: Seq<RoomRecord>,
)
    requires
        InMemoryRoomRepository::saved(&before, room, &after),
        after.listed(listed),
        application::is_sorted_form(sorted, listed),
    ensures
        sorted.contains(room),
{
    law_sorting_keeps_the_listing(after, listed, sorted);
    assert(names(sorted).to_set().contains(room.id));
    let i = names(sorted).index_of(room.id);
    assert(sorted[i].id == room.id);
    assert(sorted[i].capacity == room.capacity);
    assert(sorted[i] == room);
}

proof fn lemma_ascending_is_determined(a: Seq<Seq<char>>, b: Seq<Seq<char>>)
    requires
        a.no_duplicates(),
        b.no_duplicates(),
        a.to_set() == b.to_set(),
        forall|i: int, j: int|
            0 <= i < j < a.len() ==> text::text_le(#[trigger] a[i], #[trigger] a[j]),
        forall|i: int, j: int|
            0 <= i < j < b.len() ==> text::text_le(#[trigger] b[i], #[trigger] b[j]),
    ensures
        a == b,
    decreases a.len(),
{
    if a.len() == 0 {
        if b.len() > 0 {
            assert(b.to_set().contains(b[0]));
            assert(a.to_set().contains(b[0]));
        }
        assert(a =~= b);
    } else {
        assert(a.to_set().contains(a.last()));
        assert(b.to_set().contains(a.last()));
        let i = b.index_of(a.last());
        assert(b[i] == a.last());
        assert(b.to_set().contains(b.last()));
        assert(a.to_set().contains(b.last()));
        let j = a.index_of(b.last());
        assert(a[j] == b.last());
        text::lemma_text_le_total(a.last(), b.last());
        assert(a.last() == b.last());
        let front = a.drop_last();
        let other = b.drop_last();
        assert forall|key: Seq<char>| front.to_set().contains(key) <==> other.to_set().contains(
            key,
        ) by {
            assert(a =~= front.push(a.last()));
            assert(b =~= other.push(b.last()));
            table::lemma_push_contains(front, a.last(), key);
            table::lemma_push_contains(other, b.last(), key);
            assert(a.to_set().contains(key) <==> b.to_set().contains(key));
            if front.contains(a.last()) {
                let k = front.index_of(a.last());
                assert(a[k] == a[a.len() - 1]);
            }
            if other.contains(b.last()) {
                let k = other.index_of(b.last());
                assert(b[k] == b[b.len() - 1]);
            }
        }
        assert(front.to_set() =~= other.to_set());
        lemma_ascending_is_determined(front, other);
        assert(a =~= front.push(a.last()));
        assert(b =~= other.push(b.last()));
    }
}

/// What is shown of a repository depends on its rooms alone: the order in which it hands them out
/// does not matter.
pub proof fn law_shown_rooms_are_determined(
    repository: InMemoryRoomRepository,
    listed: Seq<RoomRecord>,
    sorted: Seq<RoomRecord>,
    other_listed: Seq<RoomRecord>,
    other_sorted: Seq<RoomRecord>,
)
    requires
        repository.listed(listed),
        application::is_sorted_form(sorted, listed),
        repository.listed(other_listed),
        application::is_sorted_form(other_sorted, other_listed),
    ensures
        sorted == other_sorted,
{
    law_sorting_keeps_the_listing(repository, listed, sorted);
    law_sorting_keeps_the_listing(repository, other_listed, other_sorted);
    let a = names(sorted);
    let b = names(other_sorted);
    assert forall|i: int, j: int| 0 <= i < j < a.len() implies text::text_le(
        #[trigger] a[i],
        #[trigger] a[j],
    ) by {
        assert(text::text_le(sorted[i].id, sorted[j].id));
    }
    assert forall|i: int, j: int| 0 <= i < j < b.len() implies text::text_le(
        #[trigger] b[i],
        #[trigger] b[j],
    ) by {
        assert(text::text_le(other_sorted[i].id, other_sorted[j].id));
    }
    lemma_ascending_is_determined(a, b);
    assert forall|i: int| 0 <= i < sorted.len() implies sorted[i] == other_sorted[i] by {
        assert(a[i] == b[i]);
        assert(sorted[i].capacity == repository@[sorted[i].id]);
        assert(other_sorted[i].capacity == repository@[other_sorted[i].id]);
    }
    assert(sorted =~= other_sorted);
}

} // verus!
