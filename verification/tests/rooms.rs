use huddletalk::application::{
    sorted_views, CreateRoomCommand, RoomApplicationService, RoomView,
};
use huddletalk::domain::{DomainError, Room, RoomId, RoomRepository};
use huddletalk::infrastructure::InMemoryRoomRepository;

fn room(id: &str, capacity: usize) -> Room {
    Room::new(RoomId::new(id).unwrap(), capacity).unwrap()
}

fn command(room_id: &str, capacity: usize) -> CreateRoomCommand {
    CreateRoomCommand { room_id: room_id.to_owned(), capacity }
}

fn view(room_id: &str, capacity: usize) -> RoomView {
    RoomView { room_id: room_id.to_owned(), capacity }
}

#[test]
fn room_id_is_trimmed() {
    assert_eq!(RoomId::new(" \t lobby\n").unwrap().as_str(), "lobby");
    assert_eq!(RoomId::new("\u{3000}two words\u{a0}").unwrap().as_str(), "two words");
    assert_eq!(RoomId::new("\u{200b}x").unwrap().as_str(), "\u{200b}x");
}

#[test]
fn room_id_spells_itself_again() {
    let id = RoomId::new("  caf\u{e9} ").unwrap();
    assert_eq!(RoomId::new(id.as_str()).unwrap(), id);
}

#[test]
fn blank_room_id_is_refused() {
    assert_eq!(RoomId::new(""), Err(DomainError::EmptyRoomId));
    assert_eq!(RoomId::new(" \u{2003}\r\n"), Err(DomainError::EmptyRoomId));
}

#[test]
fn trimming_agrees_with_the_standard_library() {
    for code in 0u32..0x11_0000 {
        if let Some(c) = char::from_u32(code) {
            let trimmed = match RoomId::new(&c.to_string()) {
                Ok(_) => false,
                Err(_) => true,
            };
            assert_eq!(trimmed, c.is_whitespace(), "U+{code:04X}");
        }
    }
}

#[test]
fn room_needs_capacity() {
    assert_eq!(
        Room::new(RoomId::new("lobby").unwrap(), 0),
        Err(DomainError::InvalidCapacity(0))
    );
    let room = room("lobby", 32);
    assert_eq!(room.id().as_str(), "lobby");
    assert_eq!(room.capacity(), 32);
    assert_eq!(room.clone(), room);
}

#[test]
fn domain_errors_read_well() {
    assert_eq!(DomainError::EmptyRoomId.message(), "room id cannot be empty");
    assert_eq!(
        DomainError::InvalidCapacity(0).message(),
        "room capacity must be greater than 0, got 0"
    );
    assert_eq!(
        DomainError::InvalidCapacity(1_204_090).message(),
        "room capacity must be greater than 0, got 1204090"
    );
}

#[test]
fn saved_room_is_found() {
    let mut repository = InMemoryRoomRepository::new();
    assert_eq!(repository.get(&RoomId::new("lobby").unwrap()), None);
    repository.save(room("lobby", 32));
    assert_eq!(repository.get(&RoomId::new("lobby").unwrap()), Some(room("lobby", 32)));
    assert_eq!(repository.get(&RoomId::new("focus").unwrap()), None);
}

#[test]
fn last_save_wins() {
    let mut repository = InMemoryRoomRepository::default();
    repository.save(room("focus", 1));
    repository.save(room("lobby", 32));
    repository.save(room("lobby", 8));
    assert_eq!(repository.get(&RoomId::new("lobby").unwrap()), Some(room("lobby", 8)));
    assert_eq!(repository.get(&RoomId::new("focus").unwrap()), Some(room("focus", 1)));
    assert_eq!(repository.list().len(), 2);
}

#[test]
fn clone_is_a_copy_of_its_own() {
    let mut repository = InMemoryRoomRepository::with_seed_data().unwrap();
    let copy = repository.clone();
    repository.save(room("attic", 2));
    assert_eq!(copy.list().len(), 3);
    assert_eq!(repository.list().len(), 4);
}

#[test]
fn seeded_rooms_are_listed_in_order() {
    let repository = InMemoryRoomRepository::with_seed_data().unwrap();
    let service = RoomApplicationService::new(repository);
    assert_eq!(
        service.list_rooms(),
        vec![view("focus", 12), view("lobby", 32), view("townhall", 200)]
    );
}

#[test]
fn created_room_is_listed() {
    let mut service = RoomApplicationService::new(InMemoryRoomRepository::new());
    assert_eq!(service.create_room(command(" zoo ", 3)), Ok(view("zoo", 3)));
    assert_eq!(service.create_room(command("Zoo", 4)), Ok(view("Zoo", 4)));
    assert_eq!(service.create_room(command("zo", 5)), Ok(view("zo", 5)));
    assert_eq!(service.create_room(command("zoo", 6)), Ok(view("zoo", 6)));
    assert_eq!(service.list_rooms(), vec![view("Zoo", 4), view("zo", 5), view("zoo", 6)]);
}

#[test]
fn refused_room_changes_nothing() {
    let mut service =
        RoomApplicationService::new(InMemoryRoomRepository::with_seed_data().unwrap());
    assert_eq!(service.create_room(command("  ", 0)), Err(DomainError::EmptyRoomId));
    assert_eq!(service.create_room(command("lobby", 0)), Err(DomainError::InvalidCapacity(0)));
    assert_eq!(service.list_rooms().len(), 3);
    assert_eq!(service.list_rooms()[1], view("lobby", 32));
}

#[test]
fn equal_names_keep_their_order() {
    let rooms = vec![room("b", 1), room("a", 2), room("b", 3), room("a", 4), room("\u{e9}", 5)];
    assert_eq!(
        sorted_views(&rooms),
        vec![view("a", 2), view("a", 4), view("b", 1), view("b", 3), view("\u{e9}", 5)]
    );
}
