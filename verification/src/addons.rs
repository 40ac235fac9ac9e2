//! Placing a crafted addon (an oven, a loom, a spinning wheel) in a house.
//!
//! Every part's tile is worked out and checked before anything is spawned,
//! so one bad tile refuses the whole placement rather than leaving half an
//! oven behind. The house's allowance, which tiles lie in the house and
//! which are free to stand on are the housing and obstruction systems'
//! answers, handed in; this decides whether the addon goes in, and where each
//! part stands, or why it does not.
use vstd::prelude::*;
use crate::types::Point;

verus! {

/// One part of an addon: its graphic and where it stands from the tile the
/// addon is placed at.
#[derive(Clone, Copy, Debug, PartialEq, Eq)]
pub struct AddonPart {
    pub graphic: u16,
    pub dx: i16,
    pub dy: i16,
    pub dz: i16,
}

/// Why an addon does not go in.
#[derive(Clone, Copy, Debug, PartialEq, Eq)]
pub enum AddonRefusal {
    /// "This house cannot hold any more."
    HouseFull,
    /// "That cannot be placed there." A part would stand off the map.
    CannotBePlaced,
    /// "The whole … must fit inside the house."
    MustFitInside,
    /// "There is no room for that there."
    NoRoomThere,
}

/// The tile a part stands on when the addon is placed at `at`, if that is a
/// tile at all: its coordinates must fit the map's, its height a height.
pub open spec fn part_tile(at: Point, part: AddonPart) -> Option<Point> {
    let x = at.x + part.dx;
    let y = at.y + part.dy;
    let z = at.z + part.dz;
    if 0 <= x <= u16::MAX && 0 <= y <= u16::MAX && i8::MIN <= z <= i8::MAX {
        Some(Point { x: x as u16, y: y as u16, z: z as i8 })
    } else {
        None
    }
}

/// The plan for the parts from the `k`-th on: the first part that cannot
/// stand refuses the placement (off the map, outside the house, on a tile
/// that is taken, checked in that order); otherwise each part's graphic on
/// its tile, in order.
pub open spec fn plan_from(
    at: Point,
    parts: Seq<AddonPart>,
    in_house: Seq<bool>,
    free: Seq<bool>,
    k: int,
) -> Result<Seq<(u16, Point)>, AddonRefusal>
    decreases parts.len() - k,
{
    if k < 0 || k >= parts.len() {
        Ok(Seq::empty())
    } else {
        match part_tile(at, parts[k]) {
            None => Err(AddonRefusal::CannotBePlaced),
            Some(tile) => if !in_house[k] {
                Err(AddonRefusal::MustFitInside)
            } else if !free[k] {
                Err(AddonRefusal::NoRoomThere)
            } else {
                match plan_from(at, parts, in_house, free, k + 1) {
                    Ok(rest) => Ok(seq![(parts[k].graphic, tile)] + rest),
                    Err(why) => Err(why),
                }
            },
        }
    }
}

/// Where each part of an addon placed at `at` stands, or why the addon does
/// not go in: a house without room for that many more items refuses it
/// outright; otherwise see [`plan_from`].
pub open spec fn addon_plan(
    at: Point,
    parts: Seq<AddonPart>,
    room: bool,
    in_house: Seq<bool>,
    free: Seq<bool>,
) -> Result<Seq<(u16, Point)>, AddonRefusal> {
    if !room {
        Err(AddonRefusal::HouseFull)
    } else {
        plan_from(at, parts, in_house, free, 0)
    }
}

/// The tile a part stands on; see [`part_tile`].
pub fn addon_tile(at: Point, part: AddonPart) -> (tile: Option<Point>)
    ensures
        tile == part_tile(at, part),
{
    let x = at.x as i32 + part.dx as i32;
    let y = at.y as i32 + part.dy as i32;
    let z = at.z as i32 + part.dz as i32;
    if 0 <= x && x <= 0xFFFF && 0 <= y && y <= 0xFFFF && -128 <= z && z <= 127 {
        Some(Point { x: x as u16, y: y as u16, z: z as i8 })
    } else {
        None
    }
}

/// Plan an addon placed at `at`: where each part stands, or why it does not
/// go in (see [`addon_plan`]). `room` is whether the house can hold that
/// many more items; `in_house[k]` and `free[k]` are whether the `k`-th
/// part's tile lies in the same house and is free to stand on, as the
/// housing and obstruction systems answer them (they are not read for a
/// part that stands off the map).
pub fn plan_addon(
    at: Point,
    parts: &Vec<AddonPart>,
    room: bool,
    in_house: &Vec<bool>,
    free: &Vec<bool>,
) -> (plan: Result<Vec<(u16, Point)>, AddonRefusal>)
    requires
        in_house@.len() == parts@.len(),
        free@.len() == parts@.len(),
    ensures
        match plan {
            Ok(tiles) => addon_plan(at, parts@, room, in_house@, free@) == Ok::<
                Seq<(u16, Point)>,
                AddonRefusal,
            >(tiles@),
            Err(why) => addon_plan(at, parts@, room, in_house@, free@) == Err::<
                Seq<(u16, Point)>,
                AddonRefusal,
            >(why),
        },
{
    if !room {
        return Err(AddonRefusal::HouseFull);
    }
    let mut tiles: Vec<(u16, Point)> = Vec::new();
    let mut k: usize = 0;
    while k < parts.len()
        invariant
            room,
            k <= parts@.len(),
            in_house@.len() == parts@.len(),
            free@.len() == parts@.len(),
            plan_from(at, parts@, in_house@, free@, 0) == match plan_from(
                at,
                parts@,
                in_house@,
                free@,
                k as int,
            ) {
                Ok(rest) => Ok(tiles@ + rest),
                Err(why) => Err(why),
            },
        decreases parts@.len() - k,
    {
        let part = parts[k];
        assert(part == parts@[k as int]);
        let tile = match addon_tile(at, part) {
            Some(tile) => tile,
            None => {
                assert(plan_from(at, parts@, in_house@, free@, k as int) == Err::<
                    Seq<(u16, Point)>,
                    AddonRefusal,
                >(AddonRefusal::CannotBePlaced));
                return Err(AddonRefusal::CannotBePlaced);
            },
        };
        if !in_house[k] {
            assert(plan_from(at, parts@, in_house@, free@, k as int) == Err::<
                Seq<(u16, Point)>,
                AddonRefusal,
            >(AddonRefusal::MustFitInside));
            return Err(AddonRefusal::MustFitInside);
        }
        if !free[k] {
            assert(plan_from(at, parts@, in_house@, free@, k as int) == Err::<
                Seq<(u16, Point)>,
                AddonRefusal,
            >(AddonRefusal::NoRoomThere));
            return Err(AddonRefusal::NoRoomThere);
        }
        let ghost before = tiles@;
        tiles.push((part.graphic, tile));
        proof {
            let next = plan_from(at, parts@, in_house@, free@, k + 1);
            match next {
                Ok(rest) => {
                    assert(tiles@ + rest =~= before + (seq![(part.graphic, tile)] + rest));
                },
                Err(_) => {},
            }
        }
        k = k + 1;
    }
    proof {
        assert(tiles@ + Seq::<(u16, Point)>::empty() =~= tiles@);
    }
    Ok(tiles)
}

} // verus!
