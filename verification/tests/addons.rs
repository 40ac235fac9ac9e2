use openshard_world::addons::{AddonPart, AddonRefusal, addon_tile, plan_addon};
use openshard_world::types::Point;

const AT: Point = Point { x: 1500, y: 1600, z: 7 };

fn oven() -> Vec<AddonPart> {
    vec![
        AddonPart { graphic: 0x0931, dx: 0, dy: 0, dz: 0 },
        AddonPart { graphic: 0x0930, dx: 0, dy: 1, dz: 0 },
    ]
}

#[test]
fn an_addon_that_fits_stands_part_by_part() {
    let plan = plan_addon(AT, &oven(), true, &vec![true, true], &vec![true, true]);
    assert_eq!(
        plan,
        Ok(vec![(0x0931, AT), (0x0930, Point { y: 1601, ..AT })]),
        "each part on its own tile, in order"
    );
}

#[test]
fn a_full_house_refuses_before_any_tile_is_looked_at() {
    let plan = plan_addon(AT, &oven(), false, &vec![false, false], &vec![false, false]);
    assert_eq!(plan, Err(AddonRefusal::HouseFull));
}

#[test]
fn one_bad_tile_refuses_the_whole_addon() {
    assert_eq!(
        plan_addon(AT, &oven(), true, &vec![true, false], &vec![true, true]),
        Err(AddonRefusal::MustFitInside),
        "the second part sticks out of the house"
    );
    assert_eq!(
        plan_addon(AT, &oven(), true, &vec![true, true], &vec![true, false]),
        Err(AddonRefusal::NoRoomThere)
    );
    assert_eq!(
        plan_addon(AT, &oven(), true, &vec![false, true], &vec![false, true]),
        Err(AddonRefusal::MustFitInside),
        "the first part that cannot stand decides"
    );
}

#[test]
fn a_part_off_the_map_cannot_be_placed() {
    let edge = Point { x: 0, y: 0, z: 120 };
    let parts = vec![AddonPart { graphic: 0x0931, dx: -1, dy: 0, dz: 0 }];
    assert_eq!(addon_tile(edge, parts[0]), None);
    assert_eq!(plan_addon(edge, &parts, true, &vec![true], &vec![true]), Err(AddonRefusal::CannotBePlaced));
    let high = vec![AddonPart { graphic: 0x0931, dx: 0, dy: 0, dz: 10 }];
    assert_eq!(plan_addon(edge, &high, true, &vec![true], &vec![true]), Err(AddonRefusal::CannotBePlaced));
}
