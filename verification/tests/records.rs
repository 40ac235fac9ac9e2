use openshard_world::records::{
    persisted_container_position, pet_order_code, pet_order_from, restored_facing, trap_kind_code,
    trap_kind_from, valid_saved_amount, CorpseData, Direction, GumpPoint, ItemLocation, ItemRecord,
    PetOrder, TrapKind, CORPSE_GRAPHIC, MAX_STACK, item_record, CorpseStory, LiveItem, LockdownRecord, TrapRecord,
};
use openshard_world::traps::Trap;

fn item(corpse: Option<CorpseData>) -> ItemRecord {
    ItemRecord {
        serial: 0x4000_0001,
        owner: None,
        graphic: CORPSE_GRAPHIC,
        hue: 0,
        amount: 0x0190,
        stackable: false,
        container_gump: None,
        price: None,
        name: None,
        corpse,
        kind: None,
        material: None,
        spellbook: None,
        poison: None,
        trap: None,
        uses: None,
        crafted: None,
        rune: None,
        locked_down: None,
        addon: None,
        location: ItemLocation::Ground { facet: 0, x: 1, y: 2, z: 0 },
    }
}

#[test]
fn preserves_the_entire_persisted_coordinate_domain() {
    assert_eq!(
        persisted_container_position(GumpPoint { x: 0, y: 65_535 }),
        (0, 65_535)
    );
}

#[test]
fn saved_stack_amounts_must_fit_the_live_physical_pile_domain() {
    assert!(!valid_saved_amount(0x0EED, 0));
    assert!(valid_saved_amount(0x0EED, 1));
    assert!(valid_saved_amount(0x0EED, MAX_STACK));
    assert!(!valid_saved_amount(0x0EED, MAX_STACK + 1));
}

#[test]
fn a_saved_corpse_amount_is_its_body_not_a_stack_quantity() {
    assert!(valid_saved_amount(CORPSE_GRAPHIC, 0));
}

#[test]
fn a_corpse_lies_the_way_it_was_saved_and_an_old_save_lies_north() {
    let story = CorpseData { owner: "a rat".to_owned(), player: false, killer: None, carved: false, facing: 2 };
    assert_eq!(restored_facing(&item(Some(story))), Direction::East);
    assert_eq!(restored_facing(&item(None)), Direction::North);
    // The running bit does not turn a body.
    let running = CorpseData { owner: "a rat".to_owned(), player: false, killer: None, carved: false, facing: 0x80 | 6 };
    assert_eq!(restored_facing(&item(Some(running))), Direction::West);
}

#[test]
fn trap_kinds_survive_the_store_and_an_unknown_one_is_still_a_trap() {
    for kind in [TrapKind::Magic, TrapKind::Explosion, TrapKind::Dart, TrapKind::Poison] {
        assert_eq!(trap_kind_from(trap_kind_code(kind)), kind);
    }
    assert_eq!(trap_kind_code(TrapKind::Poison), 3);
    assert_eq!(trap_kind_from(200), TrapKind::Magic);
}

#[test]
fn pet_orders_survive_the_store_and_an_unknown_one_is_follow() {
    for order in [
        PetOrder::Follow,
        PetOrder::Come,
        PetOrder::Stay,
        PetOrder::Guard,
        PetOrder::Attack,
        PetOrder::Stop,
    ] {
        assert_eq!(pet_order_from(pet_order_code(order)), order);
    }
    assert_eq!(pet_order_code(PetOrder::Stop), 5);
    assert_eq!(pet_order_from(6), PetOrder::Follow);
}

fn live(graphic: u16) -> LiveItem {
    LiveItem {
        serial: Some(0x4000_0001),
        drawn: Some((graphic, 0x0021)),
        amount: None,
        corpse_body: None,
        stackable: false,
        container_gump: None,
        price: None,
        name: None,
        corpse: None,
        kind: None,
        material: None,
        spellbook: None,
        poison: None,
        trap: None,
        uses: None,
        quality: None,
        maker: None,
        rune: None,
        locked_down: None,
        addon: None,
    }
}

#[test]
fn a_live_item_is_recorded_with_its_pile_or_one() {
    let at = ItemLocation::Ground { facet: 0, x: 1, y: 2, z: 0 };
    let mut pile = live(0x0EED);
    pile.amount = Some(250);
    pile.stackable = true;
    let record = item_record(&pile, None, at).expect("bound and drawn");
    assert_eq!((record.serial, record.graphic, record.hue, record.amount), (0x4000_0001, 0x0EED, 0x0021, 250));
    assert!(record.stackable);
    assert_eq!(item_record(&live(0x0E75), Some(9), at).expect("recorded").amount, 1, "not a pile: one");
    assert_eq!(item_record(&live(0x0E75), Some(9), at).expect("recorded").owner, Some(9));
}

#[test]
fn a_corpse_is_recorded_with_its_body_and_its_story() {
    let at = ItemLocation::Ground { facet: 0, x: 1, y: 2, z: 0 };
    let mut corpse = live(0x2006);
    corpse.amount = Some(5);
    corpse.corpse_body = Some((0x0190, 4));
    corpse.corpse = Some(CorpseStory {
        owner: "a rat".to_owned(),
        player: false,
        killer: Some("Lord British".to_owned()),
        carved: true,
    });
    let record = item_record(&corpse, None, at).expect("recorded");
    assert_eq!(record.amount, 0x0190, "its body, not a pile");
    let story = record.corpse.expect("a story");
    assert_eq!(story.killer.as_deref(), Some("Lord British"));
    assert_eq!(story.facing, 4);
    assert!(story.carved);

    let mut sack = live(0x2006);
    sack.corpse = Some(CorpseStory { owner: "nobody".to_owned(), player: false, killer: None, carved: false });
    let sack = item_record(&sack, None, at).expect("recorded");
    assert_eq!(sack.amount, 1, "a bodiless sack");
    assert_eq!(sack.corpse.expect("a story").facing, 0, "faces nowhere");
}

#[test]
fn an_item_with_no_serial_or_nothing_drawn_is_not_recorded() {
    let at = ItemLocation::Ground { facet: 0, x: 1, y: 2, z: 0 };
    let mut unbound = live(0x0E75);
    unbound.serial = None;
    assert_eq!(item_record(&unbound, None, at), None);
    let mut undrawn = live(0x0E75);
    undrawn.drawn = None;
    assert_eq!(item_record(&undrawn, None, at), None);
}

#[test]
fn a_live_item_keeps_its_trap_poison_mark_and_maker() {
    let at = ItemLocation::Ground { facet: 0, x: 1, y: 2, z: 0 };
    let mut chest = live(0x0E40);
    chest.trap = Some(Trap { kind: TrapKind::Poison, power: 0, level: 3 });
    chest.poison = Some((2, 5));
    chest.maker = Some("Iolo".to_owned());
    chest.kind = Some(12);
    chest.material = Some(3);
    chest.uses = Some(40);
    chest.spellbook = Some(0b1011);
    chest.rune = Some((1, 1496, 1628, 10));
    chest.locked_down = Some((0x4000_0100, Some(1)));
    chest.addon = Some((7, 0x4000_0200));
    let record = item_record(&chest, None, at).expect("bound and drawn");
    assert_eq!(record.trap, Some(TrapRecord { kind: 3, power: 0, level: 3 }));
    assert_eq!(record.poison, Some((2, 5)));
    assert_eq!(record.crafted, Some((false, Some("Iolo".to_owned()))), "a maker without a quality is ordinary work");
    assert_eq!((record.kind, record.material, record.uses, record.spellbook), (Some(12), Some(3), Some(40), Some(0b1011)));
    assert_eq!(record.rune, Some((1, 1496, 1628, 10)));
    assert_eq!(record.locked_down, Some(LockdownRecord { house: 0x4000_0100, secure: Some(1) }));
    assert_eq!(record.addon, Some((7, 0x4000_0200)));

    let mut fine = live(0x13B9);
    fine.quality = Some(true);
    assert_eq!(item_record(&fine, None, at).expect("drawn").crafted, Some((true, None)));
    assert_eq!(item_record(&live(0x13B9), None, at).expect("drawn").crafted, None);
}
