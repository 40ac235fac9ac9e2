use openshard_world::entry::CreateCharacter;
use openshard_world::types::{AccessLevel, ConnectionId, DenyReason, Event, Packet, Point};
use openshard_world::world::World;

const START: Point = Point { x: 1495, y: 1629, z: 10 };

fn world() -> World {
    World::new(START)
}

fn connection() -> ConnectionId {
    12
}

/// Everything the world queued for one connection, taken off the queue.
fn packets_for(world: &mut World, connection: ConnectionId) -> Vec<Packet> {
    let (mine, rest): (Vec<_>, Vec<_>) = std::mem::take(&mut world.outbound)
        .into_iter()
        .partition(|out| out.connection == connection);
    world.outbound = rest;
    mine.into_iter().map(|out| out.packet).collect()
}

fn replies(world: &mut World, connection: ConnectionId) -> Vec<u8> {
    packets_for(world, connection).iter().map(Packet::id).collect()
}

fn authenticate(world: &mut World, connection: ConnectionId) {
    world.authenticated(connection, 0, "admin".to_owned(), AccessLevel::Player);
}

/// A second connection on the admin account, sitting on the character screen,
/// asking to delete a slot.
fn delete_slot(world: &mut World, slot: u32) -> ConnectionId {
    let screen = 40;
    authenticate(world, screen);
    world.delete_character_at(screen, slot);
    screen
}

#[test]
fn the_character_list_comes_out_of_the_tick_that_takes_the_connection_over() {
    let mut world = world();
    let connection = connection();
    world.roster.enrol("admin", "Lord British");

    authenticate(&mut world, connection);

    let packets = packets_for(&mut world, connection);
    let list = packets.iter().find(|packet| packet.id() == 0xA9);
    let list = list.expect("the character list goes back");
    let Packet::CharacterList { characters, .. } = list else {
        panic!("a list is a list");
    };
    assert!(
        characters.iter().any(|entry| entry.name == "Lord British"),
        "with the character the roster has on this account"
    );
}

#[test]
fn a_slot_naming_no_character_is_refused() {
    let mut world = world();
    let screen = delete_slot(&mut world, 3);

    assert_eq!(replies(&mut world, screen), [0xA9, 0x85]);
}

#[test]
fn a_character_nobody_is_playing_is_deleted_and_the_screen_redrawn() {
    let mut world = world();
    world.roster.enrol("admin", "Dupre");

    let screen = delete_slot(&mut world, 0);

    assert_eq!(
        replies(&mut world, screen),
        [0xA9, 0x86],
        "the list at login, then the list again without it"
    );
    assert!(world.roster.characters("admin").is_empty());
}

#[test]
fn a_connection_the_world_never_took_over_is_answered_with_nothing() {
    let mut world = world();
    world.roster.enrol("admin", "Dupre");
    world.delete_character_at(connection(), 0);

    assert!(replies(&mut world, connection()).is_empty());
    assert_eq!(world.roster.characters("admin").len(), 1, "and nothing was deleted");
}

#[test]
fn the_feature_mask_goes_ahead_of_the_list_when_the_shard_advertises_one() {
    let mut world = world();
    world.screen.features = 0x0080;
    authenticate(&mut world, connection());
    assert_eq!(replies(&mut world, connection()), [0xB9, 0xA9]);
}

#[test]
fn a_new_name_is_trimmed_and_checked_against_the_account() {
    let mut world = world();
    world.roster.enrol("admin", "Dupre");
    assert_eq!(world.validate_new_name("admin", "  Iolo  "), Ok("Iolo".to_owned()));
    assert_eq!(world.validate_new_name("admin", "   "), Err(DenyReason::BadCharacter));
    assert_eq!(world.validate_new_name("admin", "\u{3000}\t"), Err(DenyReason::BadCharacter));
    assert_eq!(world.validate_new_name("admin", "\u{2003}Iolo\u{a0}"), Ok("Iolo".to_owned()));
    assert_eq!(world.validate_new_name("admin", "dUPRE"), Err(DenyReason::BadCharacter));
    assert_eq!(
        world.validate_new_name("admin", &"x".repeat(31)),
        Err(DenyReason::BadCharacter)
    );
    for name in ["Two", "Three", "Four", "Five"] {
        world.roster.enrol("admin", name);
    }
    assert_eq!(world.validate_new_name("admin", "Six"), Err(DenyReason::TooManyCharacters));
}

#[test]
fn an_announcement_reaches_only_the_players() {
    let mut world = world();
    authenticate(&mut world, connection());
    let _ = packets_for(&mut world, connection());
    world.announce("the shard is stopping");
    assert!(replies(&mut world, connection()).is_empty(), "nobody on the screen hears it");
}

/// What a client sends when the player finishes the creation screen.
fn creating(name: &str) -> CreateCharacter {
    CreateCharacter {
        name: name.to_owned(),
        start_location: 0,
        body: 0x0190,
        hue: 0x83EA,
        strength: 45,
        dexterity: 35,
        intelligence: 10,
    }
}

fn names_on(world: &World) -> Vec<String> {
    world.roster.characters("admin").into_iter().map(|entry| entry.name).collect()
}

fn playing(world: &World, connection: ConnectionId) -> bool {
    world.players.iter().any(|player| player.connection == connection)
}

#[test]
fn a_created_character_joins_the_list_and_the_world() {
    let mut world = world();
    let connection = connection();
    authenticate(&mut world, connection);
    let _ = packets_for(&mut world, connection);

    world.create_character(connection, creating("Dupre"));

    assert_eq!(names_on(&world), ["Dupre"], "it is on the account's list");
    assert!(playing(&world, connection), "and it is being played, without a second packet from the client");
}

#[test]
fn a_duplicate_name_is_refused_and_the_connection_stays() {
    let mut world = world();
    let connection = connection();
    world.roster.enrol("admin", "Dupre");
    authenticate(&mut world, connection);
    let _ = packets_for(&mut world, connection);

    world.create_character(connection, creating("dupre"));

    assert_eq!(replies(&mut world, connection), [0x82], "refused, and told why");
    assert_eq!(world.roster.characters("admin").len(), 1, "and nothing was added");
    assert!(!playing(&world, connection), "and nobody entered the world");
}

#[test]
fn an_empty_name_is_refused() {
    let mut world = world();
    let connection = connection();
    authenticate(&mut world, connection);
    let _ = packets_for(&mut world, connection);

    world.create_character(connection, creating("   "));

    assert_eq!(replies(&mut world, connection), [0x82]);
    assert!(world.roster.characters("admin").is_empty());
}

#[test]
fn a_sixth_character_is_refused_where_the_client_can_hear_it() {
    let mut world = world();
    let connection = connection();
    for name in ["One", "Two", "Three", "Four", "Five"] {
        world.roster.enrol("admin", name);
    }
    authenticate(&mut world, connection);
    let _ = packets_for(&mut world, connection);

    world.create_character(connection, creating("Six"));

    assert_eq!(replies(&mut world, connection), [0x82]);
    assert_eq!(world.roster.characters("admin").len(), 5);
}

#[test]
fn picking_a_character_the_account_does_not_have_is_refused() {
    let mut world = world();
    let connection = connection();
    authenticate(&mut world, connection);
    let _ = packets_for(&mut world, connection);

    world.play_character(connection, "Somebody Else".to_owned());

    assert!(!playing(&world, connection), "nobody entered the world");
    assert!(world.roster.characters("admin").is_empty(), "and no character was invented to enter as");
    assert_eq!(world.bus.events, [Event::EntryRefused { connection }], "the connection is turned away");
}

#[test]
fn picking_a_character_off_the_list_enters_it_however_it_is_spelled() {
    let mut world = world();
    let connection = connection();
    world.roster.enrol("admin", "Lord British");
    authenticate(&mut world, connection);

    world.play_character(connection, "lord british".to_owned());

    assert!(playing(&world, connection), "in the world");
    assert_eq!(world.players[0].name, "Lord British", "under the name on the list");
}

#[test]
fn a_picked_name_is_trimmed_before_it_is_looked_up() {
    let mut world = world();
    world.roster.enrol("admin", "Iolo");
    assert_eq!(world.named_character("admin", "  IOLO "), Some("Iolo".to_owned()));
    assert_eq!(world.named_character("admin", "Dupre"), None);
    assert_eq!(world.named_character("someone", "Iolo"), None, "another account's list is not searched");
}

#[test]
fn a_connection_that_never_authenticated_cannot_pick_a_character() {
    let mut world = world();
    world.roster.enrol("admin", "Iolo");
    world.play_character(connection(), "Iolo".to_owned());
    assert!(world.players.is_empty() && world.bus.events.is_empty(), "ignored, not refused");
}
