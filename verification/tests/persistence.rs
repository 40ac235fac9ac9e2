use openshard_world::entry::{Character, Entering, FreshCharacter};
use openshard_world::motion::{PlayerWalk, Walk, WalkRequest};
use openshard_world::records::{CharacterRecord, Direction, ItemLocation, ItemRecord, StatLockRecord, TrapRecord};
use openshard_world::types::{AccessLevel, ConnectionId, Facing, Point};
use openshard_world::world::{Snapshot, World};

const START: Point = Point { x: 1495, y: 1629, z: 10 };

/// A world that saves every tick, so a test does not have to run four
/// hundred of them to see one row.
fn eager() -> World {
    World::new(START).with_save_every(1)
}

fn fresh() -> Character {
    Character::Fresh(FreshCharacter {
        facet: 0,
        start: None,
        body: 0x0190,
        hue: 0,
        strength: 100,
        dexterity: 100,
        intelligence: 100,
        dead: false,
    })
}

/// A connection playing "Lord British" on the admin account, after one tick.
fn enter(world: &mut World) -> ConnectionId {
    let connection = 7;
    world.authenticated(connection, 0, "admin".to_owned(), AccessLevel::Player);
    world.enter(Entering {
        connection,
        account: "admin".to_owned(),
        name: "Lord British".to_owned(),
        character: fresh(),
    });
    world.tick();
    connection
}

fn only_snapshot(world: &mut World) -> Option<Snapshot> {
    let mut saves: Vec<_> = world.drain_saves();
    assert!(saves.len() <= 1, "one tick, one snapshot");
    saves.pop()
}

/// One step of the player on `connection` toward `direction`, as the walk
/// state machine would accept it.
fn step(world: &mut World, connection: ConnectionId, direction: Direction, sequence: u8) {
    let player = world.players.iter().find(|p| p.connection == connection).expect("playing");
    let from = player.position;
    let to = match direction {
        Direction::North => Point { y: from.y - 1, ..from },
        Direction::South => Point { y: from.y + 1, ..from },
        Direction::East => Point { x: from.x + 1, ..from },
        _ => Point { x: from.x - 1, ..from },
    };
    let facing = Facing::walking(direction);
    let walked = PlayerWalk {
        connection,
        serial: player.serial,
        facet: player.facet,
        from,
        request: WalkRequest { sequence, facing },
        mounted: false,
        leaving_seat: false,
    };
    let walker = openshard_world::world::Walker { position: to, facing };
    world.finish_player_walk(walked, walker, Walk::Moved { position: to, facing });
    world.tick();
}

#[test]
fn entering_the_world_is_worth_saving() {
    let mut world = eager();
    enter(&mut world);

    let snapshot = only_snapshot(&mut world).expect("a new character is a change");
    assert_eq!(snapshot.characters.len(), 1);
    assert_eq!(snapshot.characters[0].name, "Lord British");
    assert_eq!(snapshot.characters[0].x, START.x);
}

#[test]
fn an_empty_world_offers_nothing() {
    let mut world = eager();
    for _ in 1..10 {
        world.tick();
    }
    assert_eq!(world.drain_saves().len(), 0);
}

#[test]
fn an_online_character_is_saved_every_cadence_even_when_idle() {
    let mut world = eager();
    enter(&mut world);
    let _ = world.drain_saves();
    world.tick();
    assert!(!world.drain_saves().is_empty(), "an idle online character is still saved");
}

#[test]
fn walking_marks_the_character_without_anyone_remembering_to() {
    let mut world = World::new(START).with_save_every(0);
    let connection = enter(&mut world);
    step(&mut world, connection, Direction::North, 1);
    world.take_snapshot();

    let snapshot = only_snapshot(&mut world).expect("a step is a change");
    assert_eq!(snapshot.characters.len(), 1);
    assert_eq!(
        snapshot.characters[0].y,
        START.y - 1,
        "the snapshot must hold where the step went, not where it started"
    );
    assert!(world.journal.dirty.is_empty(), "and the save took the marks with it");
}

#[test]
fn logging_out_saves_where_the_player_actually_stopped() {
    let mut world = World::new(START).with_save_every(0);
    let connection = enter(&mut world);
    step(&mut world, connection, Direction::North, 1);
    step(&mut world, connection, Direction::North, 2);

    world.despawn(connection);
    world.tick();
    assert_eq!(world.players.len(), 0, "and the entity is gone");

    world.take_snapshot();
    let snapshot = only_snapshot(&mut world).expect("a session is worth saving");
    assert_eq!(snapshot.characters.len(), 1);
    assert_eq!(snapshot.characters[0].y, START.y - 2, "two steps north is where the player stopped");
}

#[test]
fn logging_out_does_not_delete_the_character() {
    let mut world = World::new(START).with_save_every(0);
    let connection = enter(&mut world);
    world.despawn(connection);
    world.tick();

    world.take_snapshot();
    let snapshot = only_snapshot(&mut world).expect("a change");
    assert!(snapshot.removed.is_empty(), "a logout must not queue a deletion");
    assert_eq!(world.roster.characters("admin").len(), 1);
}

#[test]
fn deleting_a_character_forgets_its_row_on_the_next_save() {
    let mut world = eager();
    let connection = enter(&mut world);
    let serial = world.players[0].serial;
    world.despawn(connection);
    world.tick();
    let _ = world.drain_saves();

    let screen = 40;
    world.authenticated(screen, 0, "admin".to_owned(), AccessLevel::Player);
    world.delete_character_at(screen, 0);
    world.tick();
    let snapshot = only_snapshot(&mut world).expect("a deletion is a change worth saving");
    assert!(
        snapshot.removed.contains(&serial),
        "the deleted serial is marked removed so the store drops it"
    );
}

#[test]
fn a_character_being_played_cannot_be_deleted_from_another_connection() {
    let mut world = eager();
    enter(&mut world);
    let screen = 40;
    world.authenticated(screen, 0, "admin".to_owned(), AccessLevel::Player);
    world.delete_character_at(screen, 0);
    let replies: Vec<u8> = world
        .drain_outbound()
        .into_iter()
        .filter(|out| out.connection == screen)
        .map(|out| out.packet.id())
        .collect();
    assert_eq!(replies, [0xA9, 0x85], "the list it was sent at login, then the refusal");
    assert_eq!(world.roster.characters("admin").len(), 1);
}

#[test]
fn the_snapshot_arrives_on_the_cadence_and_not_before() {
    let mut world = World::new(START).with_save_every(4);
    enter(&mut world);
    // enter() ran tick 1. Ticks 2 and 3 offer nothing; tick 4 does.
    world.tick();
    assert_eq!(world.drain_saves().len(), 0, "tick 2 is not a save tick");
    world.tick();
    assert_eq!(world.drain_saves().len(), 0, "nor tick 3");
    world.tick();
    assert_eq!(world.drain_saves().len(), 1, "tick 4 is");
}

#[test]
fn thirty_steps_in_one_save_window_are_one_row() {
    let mut world = World::new(START).with_save_every(0);
    let connection = enter(&mut world);
    for sequence in 1..=20 {
        step(&mut world, connection, Direction::North, sequence);
    }
    world.take_snapshot();
    let snapshot = only_snapshot(&mut world).expect("a change");
    assert_eq!(snapshot.characters.len(), 1, "one character, one row");
}

#[test]
fn a_shutdown_notice_reaches_the_world_and_nobody_on_the_way_into_it() {
    let mut world = World::new(START);
    let inside = enter(&mut world);
    let arriving: ConnectionId = 77;
    world.authenticated(arriving, 0, "admin".to_owned(), AccessLevel::Player);
    let before = world.drain_outbound();
    assert!(
        before.iter().any(|out| out.connection == arriving),
        "the character screen answered this connection, so the world can reach it"
    );

    world.announce("the shard is stopping");

    let sent = world.drain_outbound();
    assert!(
        sent.iter().any(|out| out.connection == inside
            && out.packet.id() == 0x1C
            && matches!(&out.packet, openshard_world::types::Packet::SystemMessage { text } if text == "the shard is stopping")),
        "a player in the world is told why it is going"
    );
    assert!(
        !sent.iter().any(|out| out.connection == arriving),
        "a connection with no character is told nothing: there is no body to speak to"
    );
}

#[test]
fn a_logout_is_read_back_by_the_next_entry_before_any_save() {
    let mut world = World::new(START).with_save_every(0);
    let connection = enter(&mut world);
    step(&mut world, connection, Direction::North, 1);
    let serial = world.players[0].serial;
    world.despawn(connection);

    world.enter(Entering {
        connection: 8,
        account: "ADMIN".to_owned(),
        name: "lord british".to_owned(),
        character: Character::Saved,
    });
    let back = &world.players[0];
    assert_eq!(back.serial, serial, "the same character, not a fresh one");
    assert_eq!(back.position.y, START.y - 1, "where it stopped");
}

#[test]
fn a_dead_character_is_saved_with_its_living_body_and_returns_a_ghost() {
    let mut world = eager();
    world.enter(Entering {
        connection: 7,
        account: "admin".to_owned(),
        name: "Revenant".to_owned(),
        character: Character::Fresh(FreshCharacter {
            facet: 0,
            start: None,
            body: 0x0190,
            hue: 0,
            strength: 100,
            dexterity: 100,
            intelligence: 100,
            dead: true,
        }),
    });
    assert_eq!(world.players[0].body, 0x0192, "in the ghost body");
    world.tick();
    let snapshot = only_snapshot(&mut world).expect("a character entered");
    let record: &CharacterRecord = &snapshot.characters[0];
    assert!(record.dead, "saved as dead");
    assert_eq!(record.body, 0x0190, "with the living body, not the grey ghost one");

    world.despawn(7);
    world.enter(Entering {
        connection: 8,
        account: "admin".to_owned(),
        name: "Revenant".to_owned(),
        character: Character::Saved,
    });
    assert_eq!(world.players[0].body, 0x0192, "re-enters a ghost");
    assert_eq!(world.players[0].living_body, Some(0x0190), "remembering the living body");
}

fn ground_item(serial: u32, graphic: u16, amount: u16, facet: u8) -> ItemRecord {
    ItemRecord {
        serial,
        owner: None,
        graphic,
        hue: 0,
        amount,
        stackable: false,
        container_gump: None,
        price: None,
        name: None,
        corpse: None,
        kind: None,
        material: None,
        spellbook: None,
        poison: None,
        trap: None,
        uses: None,
        crafted: None,
        rune: None,
        locked_down: None,
        addon: None,
        location: ItemLocation::Ground { facet, x: 10, y: 20, z: 0 },
    }
}

fn carried(serial: u32, owner: u32) -> ItemRecord {
    ItemRecord {
        owner: Some(owner),
        location: ItemLocation::Equipped { mobile: owner, layer: 0x15 },
        ..ground_item(serial, 0x0E75, 1, 0)
    }
}

fn character(serial: u32, name: &str) -> CharacterRecord {
    CharacterRecord {
        serial,
        account: "admin".to_owned(),
        name: name.to_owned(),
        body: 0x0190,
        hue: 0,
        facet: 0,
        x: 1,
        y: 2,
        z: 0,
        facing: 4,
        strength: 50,
        dexterity: 50,
        intelligence: 50,
        dead: false,
        fame: 0,
        karma: 0,
        murders: 0,
        guild: None,
        guild_title: String::new(),
        guild_rank: 0,
        guild_candidate: None,
        stat_locks: StatLockRecord {
            strength: 0,
            dexterity: 0,
            intelligence: 0,
            strength_age: 0,
            dexterity_age: 0,
            intelligence_age: 0,
        },
    }
}

#[test]
fn boot_restores_characters_then_items_and_files_the_packs() {
    let mut world = World::new(START);
    let characters =
        world.restore_characters(vec![character(1, "Dupre"), character(2, "Iolo"), character(1, "Dupre")]);
    assert_eq!(characters.count(), 2, "one serial, one character");
    assert!(world.registry.reserved.contains(&1) && world.registry.reserved.contains(&2));
    assert_eq!(world.roster.characters("admin").len(), 2);

    let items = world.restore_items(
        vec![
            carried(0x4000_0001, 1),
            carried(0x4000_0002, 9),
            ground_item(0x4000_0003, 0x0EED, 1, 0),
            ground_item(0x4000_0004, 0x0EED, 0, 0),
            ground_item(0x4000_0005, 0x1F14, 1, 3),
            ground_item(0x4000_0003, 0x0EED, 5, 0),
        ],
        &characters,
    );
    assert_eq!(items.count(), 1, "the one owner that is not a character is a mobile");
    assert_eq!(world.pending.len(), 2, "both packs are filed");
    assert_eq!(world.ground.len(), 2, "the corrupt pile and the duplicate serial are refused");
    assert!(world.ground[0].stackable, "gold is always a pile");
    assert!(
        matches!(world.ground[1].location, ItemLocation::Ground { facet: 0, .. }),
        "a facet this shard does not load lands on the default"
    );
    for serial in 0x4000_0001..=0x4000_0005u32 {
        assert!(world.registry.reserved.contains(&serial), "every item's serial is spoken for");
    }
}

fn packed(serial: u32, owner: u32, container: u32, amount: u16) -> ItemRecord {
    ItemRecord {
        owner: Some(owner),
        amount,
        location: ItemLocation::Contained { container, x: 44, y: 65, grid: 0 },
        ..ground_item(serial, 0x0E76, amount, 0)
    }
}

#[test]
fn a_corrupt_container_takes_everything_inside_it_at_any_depth() {
    let mut world = World::new(START);
    world.pending = vec![
        // Filed deepest-first, so one pass over the list would miss them.
        packed(0x4000_0005, 5, 0x4000_0004, 1),
        packed(0x4000_0004, 5, 0x4000_0003, 1),
        packed(0x4000_0003, 5, 0x4000_0001, 0),
        carried(0x4000_0001, 5),
        packed(0x4000_0006, 5, 0x4000_0001, 3),
        carried(0x4000_0007, 9),
    ];

    assert!(world.restore_inventory(5), "gear was waiting");

    let carried: Vec<u32> = world.carried.iter().map(|item| item.serial).collect();
    assert_eq!(carried, [0x4000_0001, 0x4000_0006], "the pack and the sound item in it, in filing order");
    assert_eq!(world.registry.bound, [0x4000_0001, 0x4000_0006], "and nothing refused stands in the world");
    assert_eq!(world.pending.len(), 1, "another owner's gear keeps waiting");
    assert_eq!(world.pending[0].serial, 0x4000_0007);
    assert!(!world.restore_inventory(5), "and the same owner finds nothing the second time");
}

#[test]
fn a_saved_corpse_in_a_pack_is_not_a_corrupt_stack() {
    let mut world = World::new(START);
    let mut corpse = packed(0x4000_0002, 5, 0x4000_0001, 0x0190);
    corpse.graphic = 0x2006;
    world.pending = vec![carried(0x4000_0001, 5), corpse];

    assert!(world.restore_inventory(5));
    assert_eq!(world.carried.len(), 2, "a corpse's amount is its body, not a pile");
}

#[test]
fn a_serial_already_standing_is_not_bound_twice() {
    let mut world = World::new(START);
    let mut lying = carried(0x4000_0003, 5);
    lying.location = ItemLocation::Ground { facet: 0, x: 1, y: 1, z: 0 };
    world.pending = vec![carried(0x4000_0001, 5), carried(0x4000_0001, 5), lying];

    assert!(world.restore_inventory(5));
    assert_eq!(world.carried.len(), 1, "the duplicate record is skipped");
    assert_eq!(
        world.registry.bound,
        [0x4000_0001, 0x4000_0003],
        "and a record that claims the ground is bound but not carried"
    );
}

#[test]
fn an_owner_with_nothing_filed_changes_nothing() {
    let mut world = World::new(START);
    world.pending = vec![carried(0x4000_0001, 9)];
    assert!(!world.restore_inventory(5));
    assert_eq!(world.pending.len(), 1);
    assert!(world.carried.is_empty() && world.registry.bound.is_empty());
}

#[test]
fn turning_is_worth_saving_too() {
    let mut world = eager();
    let connection = enter(&mut world);
    let _ = world.drain_saves();

    // A character spawns facing south, so the first request east turns and
    // goes nowhere.
    let player = world.players.iter().find(|p| p.connection == connection).expect("playing");
    let facing = Facing::walking(Direction::East);
    let turned = PlayerWalk {
        connection,
        serial: player.serial,
        facet: player.facet,
        from: player.position,
        request: WalkRequest { sequence: 0, facing },
        mounted: false,
        leaving_seat: false,
    };
    let walker = openshard_world::world::Walker { position: player.position, facing };
    world.finish_player_walk(turned, walker, Walk::Turned { facing });
    world.tick();

    let snapshot = only_snapshot(&mut world).expect("a turn is a change");
    assert_eq!(snapshot.characters[0].x, START.x, "a turn moves nobody");
    assert_eq!(snapshot.characters[0].facing, Facing::walking(Direction::East).to_bits());
}

#[test]
fn a_character_that_logged_out_dead_returns_a_ghost() {
    let mut world = eager();
    world.enter(Entering {
        connection: 7,
        account: "admin".to_owned(),
        name: "Revenant".to_owned(),
        character: Character::Fresh(FreshCharacter {
            facet: 0,
            start: None,
            body: 0x0190,
            hue: 0,
            strength: 100,
            dexterity: 100,
            intelligence: 100,
            dead: true,
        }),
    });
    world.tick();

    assert_eq!(world.players[0].body, 0x0192, "in the ghost body");
    assert_eq!(world.players[0].living_body, Some(0x0190), "remembering the living body to resurrect back to");
    assert!(
        world.ground.iter().chain(world.carried.iter()).all(|item| item.graphic != 0x2006),
        "no corpse is laid on relog"
    );
}

#[test]
fn two_players_are_two_rows_in_one_snapshot() {
    let mut world = World::new(START).with_save_every(0);
    for connection in [1, 2] {
        world.authenticated(connection, 0, "admin".to_owned(), AccessLevel::Player);
        world.enter(Entering {
            connection,
            account: "admin".to_owned(),
            name: format!("Player {connection}"),
            character: fresh(),
        });
    }

    world.take_snapshot();
    let snapshot = only_snapshot(&mut world).expect("a change");
    assert_eq!(snapshot.characters.len(), 2);
    assert_ne!(snapshot.characters[0].serial, snapshot.characters[1].serial, "and two distinct serials");
}

#[test]
fn a_saved_serial_is_the_one_the_client_was_told() {
    let mut world = World::new(START).with_save_every(0);
    let connection = enter(&mut world);
    let serial = world.players.iter().find(|p| p.connection == connection).expect("playing").serial;

    world.take_snapshot();
    let snapshot = only_snapshot(&mut world).expect("a change");
    assert_eq!(snapshot.characters[0].serial, serial);
}

fn worn(serial: u32, mobile: u32, container: bool) -> ItemRecord {
    ItemRecord {
        owner: None,
        container_gump: if container { Some(0x003C) } else { None },
        location: ItemLocation::Equipped { mobile, layer: 0x15 },
        ..ground_item(serial, 0x0E75, 1, 0)
    }
}

fn inside(serial: u32, container: u32, gump: Option<u16>) -> ItemRecord {
    ItemRecord {
        owner: None,
        container_gump: gump,
        location: ItemLocation::Contained { container, x: 44, y: 65, grid: 0 },
        ..ground_item(serial, 0x0EED, 1, 0)
    }
}

#[test]
fn a_save_holds_everything_a_character_carries_at_any_depth() {
    let mut world = World::new(START).with_save_every(0);
    let connection = enter(&mut world);
    let serial = world.players.iter().find(|p| p.connection == connection).expect("playing").serial;
    world.carried = vec![
        worn(0x4000_0001, serial, true),
        worn(0x4000_0002, serial, false),
        inside(0x4000_0003, 0x4000_0001, Some(0x003C)),
        inside(0x4000_0004, 0x4000_0003, None),
        // Names a sword as its holder: a sword is no container, so nothing
        // looks inside it.
        inside(0x4000_0005, 0x4000_0002, None),
        worn(0x4000_0006, 0x1234, true),
        inside(0x4000_0007, 0x4000_0006, None),
    ];

    world.take_snapshot();
    let snapshot = only_snapshot(&mut world).expect("a character is worth saving");
    assert_eq!(snapshot.inventories.len(), 1);
    assert_eq!(snapshot.inventories[0].owner, serial);
    let items: Vec<u32> = snapshot.inventories[0].items.iter().map(|item| item.serial).collect();
    assert_eq!(
        items,
        [0x4000_0001, 0x4000_0002, 0x4000_0003, 0x4000_0004],
        "the worn items, then what is packed inside them"
    );
    assert!(
        snapshot.inventories[0].items.iter().all(|item| item.owner == Some(serial)),
        "every record is owned by the character, however deep"
    );
}

#[test]
fn a_mobile_with_nothing_worn_carries_nothing() {
    let mut world = World::new(START);
    world.carried = vec![inside(0x4000_0001, 0x4000_0009, None)];
    assert!(world.inventory_of(5).is_empty());
}

#[test]
fn a_world_with_nowhere_to_save_keeps_no_journal_anyone_waits_on() {
    let mut world = World::new(START).with_save_every(0);
    let connection = enter(&mut world);
    for sequence in 1..=4 {
        step(&mut world, connection, Direction::North, sequence);
    }
    assert_eq!(world.drain_saves().len(), 0, "nothing was offered");
    assert!(!world.journal.dirty.is_empty(), "but it is still tracked, and takeable");

    world.take_snapshot();
    assert_eq!(only_snapshot(&mut world).expect("a change").characters.len(), 1);
    assert!(world.journal.dirty.is_empty());
}

#[test]
fn a_saved_character_enters_wearing_its_filed_inventory() {
    let mut world = World::new(START);
    let characters = world.restore_characters(vec![character(1, "Dupre")]);
    world.restore_items(vec![carried(0x4000_0001, 1), carried(0x4000_0002, 9)], &characters);
    assert_eq!(world.pending.len(), 2);

    world.authenticated(7, 0, "admin".to_owned(), AccessLevel::Player);
    world.enter(Entering {
        connection: 7,
        account: "admin".to_owned(),
        name: "dupre".to_owned(),
        character: Character::Saved,
    });

    assert_eq!(world.players.len(), 1, "in the world");
    assert_eq!(world.players[0].serial, 1);
    let worn: Vec<u32> = world.carried.iter().map(|item| item.serial).collect();
    assert_eq!(worn, [0x4000_0001], "wearing its own gear");
    assert_eq!(world.pending.len(), 1, "and someone else's keeps waiting");
    assert!(world.registry.bound.contains(&0x4000_0001));
}

#[test]
fn a_listed_character_with_nothing_recorded_enters_fresh() {
    let mut world = World::new(START);
    world.roster.enrol("admin", "Iolo");
    world.authenticated(7, 0, "admin".to_owned(), AccessLevel::Player);
    world.play_character(7, "iolo".to_owned());
    assert_eq!(world.players.len(), 1, "it enters, at the start");
    assert_eq!(world.players[0].position, START);
    assert_eq!(world.players[0].name, "Iolo");
}

#[test]
fn a_corpses_story_comes_back_after_a_restart() {
    let mut corpse = ground_item(0x4000_0001, 0x2006, 0x0190, 0);
    corpse.corpse = Some(openshard_world::records::CorpseData {
        owner: "a rat".to_owned(),
        player: false,
        killer: Some("Lord British".to_owned()),
        carved: false,
        facing: 4,
    });
    let mut world = World::new(START).with_save_every(0);
    let characters = world.restore_characters(Vec::new());
    world.restore_items(vec![corpse], &characters);
    world.take_snapshot();
    let snapshot = only_snapshot(&mut world).expect("the ground is worth saving");
    let story = snapshot.ground[0].corpse.as_ref().expect("the corpse came back");
    assert_eq!(story.killer.as_deref(), Some("Lord British"));
    assert_eq!(snapshot.ground[0].amount, 0x0190, "with its body");
}

#[test]
fn a_save_carries_the_worlds_own_row() {
    let mut world = World::new(START).with_save_every(0);
    world.row.clock_minutes = 13 * 60;
    world.row.rng_state = 0x1234_5678;
    world.row.guild_high_water = 7;
    world.row.alliance_high_water = 2;
    enter(&mut world);
    let row = world.row;
    world.take_snapshot();
    let snapshot = only_snapshot(&mut world).expect("a change");
    assert_eq!(snapshot.world, row);
    assert_eq!(world.row, row, "a snapshot rolls nothing");
}

#[test]
fn an_inventory_is_walked_breadth_first() {
    let mut world = World::new(START);
    world.carried = vec![
        worn(0x4000_0001, 5, true),
        worn(0x4000_0002, 5, true),
        inside(0x4000_0003, 0x4000_0002, Some(0x003C)),
        inside(0x4000_0004, 0x4000_0003, None),
        inside(0x4000_0005, 0x4000_0001, None),
    ];
    let items: Vec<u32> = world.inventory_of(5).iter().map(|item| item.serial).collect();
    assert_eq!(
        items,
        [0x4000_0001, 0x4000_0002, 0x4000_0005, 0x4000_0003, 0x4000_0004],
        "every depth-1 item before any depth-2 item"
    );
}

/// A saved character whose ridden creature's item sits on the mount layer.
fn saddled(mounts: Vec<u16>) -> World {
    let mut world = World::new(START).with_client_files(Vec::new(), Vec::new(), mounts);
    let characters = world.restore_characters(vec![character(1, "Dupre")]);
    let mut saddle = carried(0x4000_0001, 1);
    saddle.graphic = 0x3EA2;
    saddle.location = ItemLocation::Equipped { mobile: 1, layer: 0x19 };
    world.restore_items(vec![saddle, carried(0x4000_0002, 1)], &characters);
    world.enter(Entering {
        connection: 7,
        account: "admin".to_owned(),
        name: "Dupre".to_owned(),
        character: Character::Saved,
    });
    world
}

#[test]
fn a_rider_logs_back_in_mounted() {
    let world = saddled(vec![0x3EA0, 0x3EA2]);
    assert_eq!(world.players.len(), 1);
    assert!(world.players[0].riding, "the saddle on the mount layer puts the rider back on it");
    assert_eq!(world.carried.len(), 2);
}

#[test]
fn an_item_that_stands_for_no_creature_mounts_nobody() {
    let world = saddled(vec![0x3EA0]);
    assert_eq!(world.players.len(), 1);
    assert!(!world.players[0].riding);
    assert_eq!(world.carried.len(), 2, "the item is still worn");
}

#[test]
fn a_guild_member_and_its_stat_arrows_survive_a_logout() {
    let mut world = World::new(START).with_save_every(0);
    let mut dupre = character(1, "Dupre");
    dupre.guild = Some(0x20);
    dupre.guild_title = "Knight".to_owned();
    dupre.guild_rank = 3;
    dupre.guild_candidate = Some(0x21);
    dupre.stat_locks = StatLockRecord {
        strength: 1,
        dexterity: 2,
        intelligence: 0,
        strength_age: 0,
        dexterity_age: 0,
        intelligence_age: 0,
    };
    world.roster.remember(dupre);
    world.authenticated(7, 0, "admin".to_owned(), AccessLevel::Player);
    world.enter(Entering {
        connection: 7,
        account: "admin".to_owned(),
        name: "Dupre".to_owned(),
        character: Character::Saved,
    });
    assert_eq!(world.players[0].guild, Some(0x20));
    assert_eq!(world.players[0].guild_title, "Knight");
    assert_eq!((world.players[0].guild_rank, world.players[0].guild_candidate), (3, Some(0x21)));
    assert_eq!(world.players[0].stat_locks, (1, 2, 0));

    world.despawn(7);
    let kept = world.roster.get("admin", "Dupre").expect("filed at logout");
    assert_eq!((kept.guild, kept.guild_title.as_str(), kept.guild_rank), (Some(0x20), "Knight", 3));
    assert_eq!(kept.guild_candidate, Some(0x21));
    assert_eq!((kept.stat_locks.strength, kept.stat_locks.dexterity, kept.stat_locks.intelligence), (1, 2, 0));
}

#[test]
fn a_stats_last_rise_is_saved_as_an_age() {
    let mut world = World::new(START).with_save_every(0);
    let connection = enter(&mut world);
    let i = world.players.iter().position(|p| p.connection == connection).expect("playing");
    world.players[i].last_gain = (0, 1, 5);
    world.ticks = 3;
    world.despawn(connection);
    let kept = world.roster.get("admin", "Lord British").expect("filed at logout");
    assert_eq!(
        (kept.stat_locks.strength_age, kept.stat_locks.dexterity_age, kept.stat_locks.intelligence_age),
        (3, 2, 0),
        "three ticks ago, two ticks ago, and a rise not yet come is no age"
    );
}

#[test]
fn a_trap_of_a_kind_this_engine_does_not_know_comes_back_a_magic_trap() {
    let mut world = World::new(START);
    let mut chest = carried(0x4000_0001, 5);
    chest.trap = Some(TrapRecord { kind: 9, power: 20, level: 1 });
    let mut box_of_darts = carried(0x4000_0002, 5);
    box_of_darts.trap = Some(TrapRecord { kind: 2, power: 5, level: 0 });
    world.pending = vec![chest, box_of_darts];
    assert!(world.restore_inventory(5));
    assert_eq!(world.carried[0].trap, Some(TrapRecord { kind: 0, power: 20, level: 1 }));
    assert_eq!(world.carried[1].trap, Some(TrapRecord { kind: 2, power: 5, level: 0 }), "a known kind keeps its code");
}
