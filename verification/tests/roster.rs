use openshard_world::records::{CharacterRecord, StatLockRecord};
use openshard_world::roster::{CharacterEntry, Roster};

/// A record with nothing on it but an identity. Everything the roster does
/// keys on those three fields; the rest is what it carries.
fn record(account: &str, name: &str, serial: u32) -> CharacterRecord {
    CharacterRecord {
        serial,
        account: account.to_owned(),
        name: name.to_owned(),
        body: 400,
        hue: 0,
        facet: 0,
        x: 0,
        y: 0,
        z: 0,
        facing: 0,
        strength: 10,
        dexterity: 10,
        intelligence: 10,
        dead: false,
        fame: 0,
        karma: 0,
        murders: 0,
        guild: None,
        guild_title: String::new(),
        guild_rank: 0,
        guild_candidate: None,
        stat_locks: StatLockRecord {
            strength: 0,
            dexterity: 0,
            intelligence: 0,
            strength_age: 0,
            dexterity_age: 0,
            intelligence_age: 0,
        },
    }
}

#[test]
fn a_character_is_found_however_the_client_spells_it() {
    let mut roster = Roster::new();
    roster.remember(record("Admin", "Lord British", 7));

    assert_eq!(
        roster.get("admin", "lord british").map(|record| record.serial),
        Some(7)
    );
    assert!(
        roster.get("admin", "Dupre").is_none(),
        "and a character nobody saved is absent, not a default"
    );
}

#[test]
fn two_accounts_may_hold_the_same_character_name() {
    let mut roster = Roster::new();
    roster.remember(record("alice", "Dupre", 1));
    roster.remember(record("bob", "Dupre", 2));

    assert_eq!(roster.saved(), 2);
    assert_eq!(roster.get("bob", "Dupre").map(|record| record.serial), Some(2));
}

#[test]
fn forgetting_hands_back_the_serial_the_world_must_drop() {
    let mut roster = Roster::new();
    roster.remember(record("admin", "Lord British", 7));

    let dropped = roster.forget("ADMIN", "LORD BRITISH");
    assert_eq!(dropped.map(|record| record.serial), Some(7));
    assert_eq!(roster.saved(), 0);
    assert!(
        roster.characters("admin").is_empty(),
        "and it is off the list, not merely undescribed"
    );
}

#[test]
fn a_character_exists_before_anything_has_described_it() {
    let mut roster = Roster::new();
    roster.enrol("admin", "Dupre");

    assert_eq!(
        roster.characters("admin"),
        vec![CharacterEntry {
            name: "Dupre".to_owned(),
        }],
        "it is on the list"
    );
    assert!(roster.get("admin", "Dupre").is_none(), "with nothing recorded about it");
    assert_eq!(roster.saved(), 0, "and the boot log counts none");
}

#[test]
fn a_character_with_nothing_recorded_is_still_deleted() {
    let mut roster = Roster::new();
    roster.enrol("admin", "Dupre");

    assert!(
        roster.forget("admin", "Dupre").is_none(),
        "there is nothing saved to hand back"
    );
    assert!(roster.characters("admin").is_empty(), "but the character is gone");
}

#[test]
fn enrolling_twice_leaves_one_character() {
    let mut roster = Roster::new();
    roster.enrol("admin", "Lord British");
    roster.remember(record("admin", "Lord British", 7));
    roster.enrol("admin", "lord british");

    assert_eq!(roster.characters("admin").len(), 1);
    assert_eq!(
        roster.get("admin", "Lord British").map(|record| record.serial),
        Some(7),
        "and the late enrolment did not wipe what was known"
    );
}

#[test]
fn the_boot_order_decides_nothing_about_a_character_in_both_halves() {
    let played = |roster: &Roster| roster.characters("admin")[0].name.clone();
    let described = |roster: &Roster| roster.get("admin", "Lord British").map(|record| record.serial);

    let mut store_first = Roster::new();
    store_first.remember(record("admin", "Lord British", 7));
    store_first.enrol("admin", "lord british");

    let mut config_first = Roster::new();
    config_first.enrol("admin", "lord british");
    config_first.remember(record("admin", "Lord British", 7));

    assert_eq!(played(&store_first), "Lord British");
    assert_eq!(
        played(&config_first),
        "Lord British",
        "the config names a character that exists; it does not rename it"
    );
    assert_eq!(described(&store_first), Some(7));
    assert_eq!(
        described(&config_first),
        Some(7),
        "and the late enrolment did not wipe what was known"
    );
}

#[test]
fn the_list_keeps_the_order_the_client_indexes() {
    let mut roster = Roster::new();
    for name in ["Alpha", "Beta", "Gamma"] {
        roster.enrol("admin", name);
    }
    let names = |roster: &Roster| {
        roster
            .characters("admin")
            .into_iter()
            .map(|entry| entry.name)
            .collect::<Vec<_>>()
    };
    assert_eq!(names(&roster), ["Alpha", "Beta", "Gamma"]);

    roster.forget("admin", "Beta");
    assert_eq!(names(&roster), ["Alpha", "Gamma"], "the rest shift down");
}

#[test]
fn an_account_with_no_list_has_no_characters_and_nothing_to_forget() {
    let mut roster = Roster::new();
    assert!(roster.characters("nobody").is_empty());
    assert!(roster.forget("nobody", "Dupre").is_none());
    assert!(roster.get("nobody", "Dupre").is_none());
}

#[test]
fn filing_a_record_adopts_its_spelling() {
    let mut roster = Roster::new();
    roster.enrol("admin", "LORD BRITISH");
    roster.remember(record("Admin", "Lord British", 9));
    assert_eq!(roster.characters("ADMIN")[0].name, "Lord British");
}
