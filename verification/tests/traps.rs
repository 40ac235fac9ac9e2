use openshard_world::records::TrapKind;
use openshard_world::traps::{DamageType, Opening, Sprung, Trap, roll_span, spring_trap};

fn sprung(trap: Trap, draw: u32) -> Sprung {
    match spring_trap(trap, false, draw) {
        Opening::Sprung(sprung) => sprung,
        Opening::ByStaff { .. } => panic!("only staff open a trap untouched"),
    }
}

#[test]
fn staff_open_a_trapped_chest_with_their_godly_powers() {
    let trap = Trap { kind: TrapKind::Explosion, power: 50, level: 3 };
    assert_eq!(
        spring_trap(trap, true, 0),
        Opening::ByStaff { line: "That is trapped, but you open it with your godly powers.".to_owned() }
    );
}

#[test]
fn a_magic_trap_deals_its_power_as_energy() {
    let hit = sprung(Trap { kind: TrapKind::Magic, power: 40, level: 5 }, 0);
    assert_eq!(hit.messages, [502_999]);
    assert_eq!(hit.damage, Some((40, DamageType::Energy)));
    assert_eq!(hit.poison, None);
    assert_eq!(hit.sound, 0x0307);
    assert_eq!(hit.effect, Some(0x36BD));
}

#[test]
fn a_levelled_explosion_rolls_ten_to_thirty_times_its_level() {
    let trap = Trap { kind: TrapKind::Explosion, power: 99, level: 2 };
    assert_eq!(roll_span(trap), Some(21));
    let hit = sprung(trap, 5);
    assert_eq!(hit.damage, Some((30, DamageType::Fire)), "(10 + 5) * 2");
    assert_eq!(hit.messages, [502_999, 503_000]);
    assert_eq!(hit.effect, Some(0x36BD));
}

#[test]
fn a_trap_without_a_level_deals_its_raw_power_and_rolls_nothing() {
    let trap = Trap { kind: TrapKind::Explosion, power: 17, level: 0 };
    assert_eq!(roll_span(trap), None);
    assert_eq!(sprung(trap, 12345).damage, Some((17, DamageType::Fire)));
}

#[test]
fn a_dart_rolls_five_to_fifteen_and_flashes_nothing() {
    let trap = Trap { kind: TrapKind::Dart, power: 0, level: 3 };
    assert_eq!(roll_span(trap), Some(11));
    let hit = sprung(trap, 10);
    assert_eq!(hit.damage, Some((45, DamageType::Physical)), "(5 + 10) * 3");
    assert_eq!(hit.messages, [502_999, 502_998]);
    assert_eq!(hit.sound, 0x0223);
    assert_eq!(hit.effect, None);
}

#[test]
fn a_poison_trap_poisons_by_its_level_and_hits_only_without_one() {
    let levelless = sprung(Trap { kind: TrapKind::Poison, power: 7, level: 0 }, 0);
    assert_eq!(levelless.damage, Some((7, DamageType::Poison)));
    assert_eq!(levelless.poison, Some(2), "greater poison");
    assert_eq!(levelless.messages, [502_999, 503_004]);
    assert_eq!(levelless.effect, Some(0x113A));

    assert_eq!(sprung(Trap { kind: TrapKind::Poison, power: 7, level: 3 }, 0).poison, Some(2));
    let deadly = sprung(Trap { kind: TrapKind::Poison, power: 7, level: 9 }, 0);
    assert_eq!(deadly.poison, Some(4), "lethal at most");
    assert_eq!(deadly.damage, None);
    assert_eq!(roll_span(Trap { kind: TrapKind::Poison, power: 7, level: 9 }), None);
}
