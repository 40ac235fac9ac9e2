use openshard_world::spells::{aim_spell, asks_reflect, landing, poison_level, Landing, SpellAim, SpellEffect};
use openshard_world::types::Point;

const CASTER_AT: Point = Point { x: 10, y: 20, z: 0 };
const AIMED_AT: Point = Point { x: 30, y: 40, z: 5 };

#[test]
fn an_offensive_spell_at_a_reflecting_mobile_turns_on_its_caster() {
    assert!(asks_reflect(SpellEffect::Damage, Some(7)));
    assert!(!asks_reflect(SpellEffect::Heal, Some(7)), "a mending is never turned back");
    assert!(!asks_reflect(SpellEffect::Poison, None), "and there is nobody to turn a spell at the ground");
    let aim = aim_spell(SpellEffect::Damage, Some(1), CASTER_AT, Some(7), AIMED_AT, true);
    assert_eq!(aim, SpellAim { target: Some(1), location: CASTER_AT, reflected: true });
    assert_eq!(landing(SpellEffect::Damage, false, Some(1), CASTER_AT, aim, 0), Landing::Strike { target: 1 });
    let kept = aim_spell(SpellEffect::Damage, Some(1), CASTER_AT, Some(7), AIMED_AT, false);
    assert_eq!(kept, SpellAim { target: Some(7), location: AIMED_AT, reflected: false });
}

#[test]
fn a_poison_grows_with_magery_up_to_the_second_level() {
    assert_eq!(poison_level(0), 0);
    assert_eq!(poison_level(299), 0);
    assert_eq!(poison_level(300), 1);
    assert_eq!(poison_level(600), 2);
    assert_eq!(poison_level(1200), 2);
    let aim = SpellAim { target: Some(7), location: AIMED_AT, reflected: false };
    assert_eq!(
        landing(SpellEffect::Poison, false, Some(1), CASTER_AT, aim, 450),
        Landing::Poison { target: 7, level: 1 }
    );
}

#[test]
fn an_area_spell_centres_on_the_caster_only_when_self_cast() {
    let aim = SpellAim { target: None, location: AIMED_AT, reflected: false };
    assert_eq!(landing(SpellEffect::AreaDamage, true, Some(1), CASTER_AT, aim, 0), Landing::Blast { centre: CASTER_AT });
    assert_eq!(landing(SpellEffect::AreaDamage, false, Some(1), CASTER_AT, aim, 0), Landing::Blast { centre: AIMED_AT });
    assert_eq!(landing(SpellEffect::AreaCure, true, Some(1), CASTER_AT, aim, 0), Landing::CureArea { centre: AIMED_AT });
}

#[test]
fn a_mending_without_a_mark_lands_on_the_caster() {
    let unaimed = SpellAim { target: None, location: CASTER_AT, reflected: false };
    assert_eq!(landing(SpellEffect::Heal, true, Some(1), CASTER_AT, unaimed, 0), Landing::Mend { who: 1 });
    assert_eq!(landing(SpellEffect::Damage, true, Some(1), CASTER_AT, unaimed, 0), Landing::Nothing);
    assert_eq!(landing(SpellEffect::Unimplemented, false, Some(1), CASTER_AT, unaimed, 0), Landing::Nothing);
    assert_eq!(landing(SpellEffect::Teleport, false, Some(1), CASTER_AT, unaimed, 0), Landing::Teleport { to: CASTER_AT });
}
