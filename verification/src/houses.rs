//! Houses across the save: written out, and rebuilt at boot.
//!
//! What is saved is where a house stands, who it answers to, and, for a
//! designed house, its design; the walls are recomputed at boot from the
//! client's own files, which the world is handed as its tile data and its
//! foundation layouts. A house that was legal when it was built stays built,
//! whatever the rules have since become. A design is saved one component to a
//! row; at boot the rows are gathered per house, in the order they were
//! saved, under the last revision saved.
use vstd::prelude::*;
use crate::types::Point;
use crate::world::{World, contains_serial, insert_serial, lemma_players_stay_bound};

verus! {

/// One piece of a designed house, relative to its foundation.
#[derive(Clone, Copy, Debug, PartialEq, Eq)]
pub struct DesignComponent {
    pub graphic: u16,
    pub dx: i16,
    pub dy: i16,
    pub dz: i16,
    pub flags: u16,
}

/// A tile's entry in the client's tile data: whether it stops a walker, and
/// how tall it stands.
#[derive(Clone, Copy, Debug, PartialEq, Eq)]
pub struct TileData {
    pub graphic: u16,
    pub impassable: bool,
    pub height: u8,
}

/// A foundation as the client's multi files lay it out.
pub struct MultiLayout {
    pub id: u16,
    pub components: Vec<DesignComponent>,
}

/// A tile a house stops walkers on: its place, and the height above that
/// place that is blocked.
#[derive(Clone, Copy, Debug, PartialEq, Eq)]
pub struct Blocker {
    pub x: i32,
    pub y: i32,
    pub z: i32,
    pub height: u8,
}

/// A house as the store holds it.
pub struct HouseRecord {
    pub serial: u32,
    /// The foundation it stands on.
    pub multi: u16,
    pub x: u16,
    pub y: u16,
    pub z: i8,
    pub facet: u8,
    pub owner: u32,
    pub co_owners: Vec<u32>,
    pub friends: Vec<u32>,
    pub bans: Vec<u32>,
    pub age: u64,
    pub lockdowns: u32,
}

/// One component of one house's design, as the store holds it.
#[derive(Clone, Copy, Debug, PartialEq, Eq)]
pub struct HouseDesignRecord {
    pub house: u32,
    pub revision: u32,
    pub graphic: u16,
    pub dx: i16,
    pub dy: i16,
    pub dz: i16,
    pub flags: u16,
}

/// A house standing in the world.
pub struct House {
    pub serial: u32,
    pub multi: u16,
    pub facet: u8,
    pub position: Point,
    pub owner: u32,
    pub co_owners: Vec<u32>,
    pub friends: Vec<u32>,
    pub bans: Vec<u32>,
    pub age: u64,
    pub lockdowns: u32,
    /// A designed house's revision and components.
    pub design: Option<(u32, Vec<DesignComponent>)>,
    /// The tiles it stops walkers on.
    pub walls: Vec<Blocker>,
}

/// A house as its contracts speak of it.
pub struct HouseView {
    pub serial: u32,
    pub multi: u16,
    pub facet: u8,
    pub position: Point,
    pub owner: u32,
    pub co_owners: Seq<u32>,
    pub friends: Seq<u32>,
    pub bans: Seq<u32>,
    pub age: u64,
    pub lockdowns: u32,
    pub design: Option<(u32, Seq<DesignComponent>)>,
    pub walls: Seq<Blocker>,
}

impl View for House {
    type V = HouseView;

    open spec fn view(&self) -> HouseView {
        HouseView {
            serial: self.serial,
            multi: self.multi,
            facet: self.facet,
            position: self.position,
            owner: self.owner,
            co_owners: self.co_owners@,
            friends: self.friends@,
            bans: self.bans@,
            age: self.age,
            lockdowns: self.lockdowns,
            design: match self.design {
                Some((revision, components)) => Some((revision, components@)),
                None => None,
            },
            walls: self.walls@,
        }
    }
}

/// The houses as their contracts speak of them.
pub open spec fn houses_view(houses: Seq<House>) -> Seq<HouseView> {
    houses.map_values(|h: House| h@)
}

/// The serials in a saved list that name somebody: a zero is unreadable, and
/// a name the shard cannot read is one it cannot act on, so it is dropped
/// rather than the house refused.
pub open spec fn readable(serials: Seq<u32>) -> Seq<u32> {
    serials.filter(|s: u32| s != 0)
}

/// A saved design row as a component.
pub open spec fn component_of(row: HouseDesignRecord) -> DesignComponent {
    DesignComponent { graphic: row.graphic, dx: row.dx, dy: row.dy, dz: row.dz, flags: row.flags }
}

/// A house's design as the rows give it: its components in the order they
/// were saved, under the last revision saved; none if no row names it.
pub open spec fn design_of(designs: Seq<HouseDesignRecord>, house: u32) -> Option<(u32, Seq<DesignComponent>)>
    decreases designs.len(),
{
    if designs.len() == 0 {
        None
    } else {
        let before = design_of(designs.drop_last(), house);
        let row = designs.last();
        if row.house == house {
            Some(
                (
                    row.revision,
                    match before {
                        Some((_, components)) => components.push(component_of(row)),
                        None => seq![component_of(row)],
                    },
                ),
            )
        } else {
            before
        }
    }
}

/// A tile's data: the first entry for its graphic, if the files have one.
pub open spec fn tile_at(tiles: Seq<TileData>, graphic: u16) -> Option<TileData>
    decreases tiles.len(),
{
    if tiles.len() == 0 {
        None
    } else if tiles[0].graphic == graphic {
        Some(tiles[0])
    } else {
        tile_at(tiles.drop_first(), graphic)
    }
}

/// A foundation's components: the first layout of its id, if the files have
/// one.
pub open spec fn layout_of(multis: Seq<MultiLayout>, id: u16) -> Option<Seq<DesignComponent>>
    decreases multis.len(),
{
    if multis.len() == 0 {
        None
    } else if multis[0].id == id {
        Some(multis[0].components@)
    } else {
        layout_of(multis.drop_first(), id)
    }
}

/// What a house is built of: its design if it has one, else its foundation's
/// layout; nothing when the files do not know the foundation.
pub open spec fn shape_of(
    multis: Seq<MultiLayout>,
    multi: u16,
    design: Option<(u32, Seq<DesignComponent>)>,
) -> Seq<DesignComponent> {
    match design {
        Some((_, components)) => components,
        None => match layout_of(multis, multi) {
            Some(components) => components,
            None => Seq::empty(),
        },
    }
}

/// Where a component stands when its house stands at `at`.
pub open spec fn blocker_for(at: Point, c: DesignComponent, height: u8) -> Blocker {
    Blocker { x: (at.x + c.dx) as i32, y: (at.y + c.dy) as i32, z: (at.z + c.dz) as i32, height }
}

/// The walls a shape raises at `at`: one blocker for each component whose
/// tile is impassable, as tall as the tile, in the shape's order; a tile the
/// files do not know stops nobody.
pub open spec fn walls_of(tiles: Seq<TileData>, at: Point, shape: Seq<DesignComponent>) -> Seq<Blocker>
    decreases shape.len(),
{
    if shape.len() == 0 {
        Seq::empty()
    } else {
        let before = walls_of(tiles, at, shape.drop_last());
        let c = shape.last();
        match tile_at(tiles, c.graphic) {
            Some(tile) => if tile.impassable {
                before.push(blocker_for(at, c, tile.height))
            } else {
                before
            },
            None => before,
        }
    }
}

/// Whether a blocker stops a walker at a point: same place, and the height
/// is inside what it blocks.
pub open spec fn stops(b: Blocker, x: int, y: int, z: int) -> bool {
    b.x == x && b.y == y && b.z <= z < b.z + b.height
}

/// A saved house as it stands in the world, with the design it was given
/// and the walls its shape raises.
pub open spec fn house_from(
    record: HouseRecord,
    design: Option<(u32, Seq<DesignComponent>)>,
    tiles: Seq<TileData>,
    multis: Seq<MultiLayout>,
) -> HouseView {
    HouseView {
        serial: record.serial,
        multi: record.multi,
        facet: record.facet,
        position: Point { x: record.x, y: record.y, z: record.z },
        owner: record.owner,
        co_owners: readable(record.co_owners@),
        friends: readable(record.friends@),
        bans: readable(record.bans@),
        age: record.age,
        lockdowns: record.lockdowns,
        design,
        walls: walls_of(
            tiles,
            Point { x: record.x, y: record.y, z: record.z },
            shape_of(multis, record.multi, design),
        ),
    }
}

/// The houses, the bound serials and the serials whose design has been taken,
/// after restoring one record: the first record of a serial takes its house's
/// design, and a record whose serial already stands in the world is skipped.
pub open spec fn house_one(
    state: (Seq<HouseView>, Seq<u32>, Seq<u32>),
    designs: Seq<HouseDesignRecord>,
    tiles: Seq<TileData>,
    multis: Seq<MultiLayout>,
    record: HouseRecord,
) -> (Seq<HouseView>, Seq<u32>, Seq<u32>) {
    let design = if state.2.contains(record.serial) {
        None
    } else {
        design_of(designs, record.serial)
    };
    let taken = state.2.push(record.serial);
    if state.1.contains(record.serial) {
        (state.0, state.1, taken)
    } else {
        (state.0.push(house_from(record, design, tiles, multis)), state.1.push(record.serial), taken)
    }
}

/// The state after restoring the records in order.
pub open spec fn house_all(
    state: (Seq<HouseView>, Seq<u32>, Seq<u32>),
    designs: Seq<HouseDesignRecord>,
    tiles: Seq<TileData>,
    multis: Seq<MultiLayout>,
    records: Seq<HouseRecord>,
) -> (Seq<HouseView>, Seq<u32>, Seq<u32>)
    decreases records.len(),
{
    if records.len() == 0 {
        state
    } else {
        house_one(house_all(state, designs, tiles, multis, records.drop_last()), designs, tiles, multis, records.last())
    }
}

/// A list with no unreadable serial is kept whole.
pub proof fn lemma_readable_keeps_names(serials: Seq<u32>)
    requires
        forall|i: int| 0 <= i < serials.len() ==> #[trigger] serials[i] != 0,
    ensures
        readable(serials) == serials,
    decreases serials.len(),
{
    reveal(Seq::filter);
    if serials.len() > 0 {
        let front = serials.drop_last();
        assert forall|i: int| 0 <= i < front.len() implies #[trigger] front[i] != 0 by {
            assert(front[i] == serials[i]);
        }
        lemma_readable_keeps_names(front);
        assert(serials.last() != 0);
        assert(readable(serials) =~= readable(front).push(serials.last()));
        assert(front.push(serials.last()) =~= serials);
    } else {
        assert(readable(serials) =~= serials);
    }
}

/// A house restored from its record and saved again is written as the same
/// record, whenever every serial on its lists is readable.
pub proof fn lemma_house_reads_back(
    record: HouseRecord,
    design: Option<(u32, Seq<DesignComponent>)>,
    tiles: Seq<TileData>,
    multis: Seq<MultiLayout>,
    saved: HouseRecord,
)
    requires
        forall|i: int| 0 <= i < record.co_owners@.len() ==> #[trigger] record.co_owners@[i] != 0,
        forall|i: int| 0 <= i < record.friends@.len() ==> #[trigger] record.friends@[i] != 0,
        forall|i: int| 0 <= i < record.bans@.len() ==> #[trigger] record.bans@[i] != 0,
        saved_as(saved, house_from(record, design, tiles, multis)),
    ensures
        saved.serial == record.serial,
        saved.multi == record.multi,
        saved.x == record.x && saved.y == record.y && saved.z == record.z,
        saved.facet == record.facet,
        saved.owner == record.owner,
        saved.co_owners@ == record.co_owners@,
        saved.friends@ == record.friends@,
        saved.bans@ == record.bans@,
        saved.age == record.age,
        saved.lockdowns == record.lockdowns,
{
    lemma_readable_keeps_names(record.co_owners@);
    lemma_readable_keeps_names(record.friends@);
    lemma_readable_keeps_names(record.bans@);
}

/// The readable serials of a saved list; see [`readable`].
fn readable_of(serials: &Vec<u32>) -> (kept: Vec<u32>)
    ensures
        kept@ == readable(serials@),
{
    let mut kept: Vec<u32> = Vec::new();
    let mut i: usize = 0;
    while i < serials.len()
        invariant
            i <= serials@.len(),
            kept@ == readable(serials@.take(i as int)),
        decreases serials@.len() - i,
    {
        proof {
            let next = serials@.take(i + 1);
            assert(next.drop_last() =~= serials@.take(i as int));
            assert(next.last() == serials@[i as int]);
            next.filter_lemma(|s: u32| s != 0);
            assert(readable(next) == readable(next.drop_last()) + if serials@[i as int] != 0 {
                seq![serials@[i as int]]
            } else {
                Seq::empty()
            }) by {
                reveal(Seq::filter);
                assert(next.filter(|s: u32| s != 0) == next.drop_last().filter(|s: u32| s != 0) + if (
                |s: u32| s != 0)(next.last()) {
                    seq![next.last()]
                } else {
                    Seq::empty()
                });
            }
        }
        if serials[i] != 0 {
            kept.push(serials[i]);
        }
        proof {
            assert(kept@ =~= readable(serials@.take(i + 1)));
        }
        i = i + 1;
    }
    proof {
        assert(serials@.take(i as int) =~= serials@);
    }
    kept
}

/// A house's design from the saved rows; see [`design_of`].
fn design_for(designs: &Vec<HouseDesignRecord>, house: u32) -> (design: Option<(u32, Vec<DesignComponent>)>)
    ensures
        match design {
            Some((revision, components)) => design_of(designs@, house) == Some(
                (revision, components@),
            ),
            None => design_of(designs@, house) is None,
        },
{
    let mut revision: u32 = 0;
    let mut components: Vec<DesignComponent> = Vec::new();
    let mut found = false;
    let mut i: usize = 0;
    while i < designs.len()
        invariant
            i <= designs@.len(),
            match design_of(designs@.take(i as int), house) {
                Some((r, cs)) => found && r == revision && cs == components@,
                None => !found && components@.len() == 0,
            },
        decreases designs@.len() - i,
    {
        proof {
            assert(designs@.take(i + 1).drop_last() =~= designs@.take(i as int));
            assert(designs@.take(i + 1).last() == designs@[i as int]);
        }
        let row = designs[i];
        if row.house == house {
            revision = row.revision;
            components.push(
                DesignComponent {
                    graphic: row.graphic,
                    dx: row.dx,
                    dy: row.dy,
                    dz: row.dz,
                    flags: row.flags,
                },
            );
            found = true;
            proof {
                assert(components@ =~= match design_of(designs@.take(i + 1), house) {
                    Some((_, cs)) => cs,
                    None => Seq::empty(),
                });
            }
        }
        i = i + 1;
    }
    proof {
        assert(designs@.take(i as int) =~= designs@);
    }
    if found {
        Some((revision, components))
    } else {
        None
    }
}

/// A tile's data; see [`tile_at`].
fn tile_in(tiles: &Vec<TileData>, graphic: u16) -> (tile: Option<TileData>)
    ensures
        tile == tile_at(tiles@, graphic),
{
    let mut i: usize = 0;
    proof {
        assert(tiles@.skip(0) =~= tiles@);
    }
    while i < tiles.len()
        invariant
            i <= tiles@.len(),
            tile_at(tiles@, graphic) == tile_at(tiles@.skip(i as int), graphic),
        decreases tiles@.len() - i,
    {
        proof {
            assert(tiles@.skip(i as int)[0] == tiles@[i as int]);
            assert(tiles@.skip(i as int).drop_first() =~= tiles@.skip(i + 1));
        }
        if tiles[i].graphic == graphic {
            return Some(tiles[i]);
        }
        i = i + 1;
    }
    None
}

/// Where a foundation's layout is in the files; see [`layout_of`].
fn layout_index(multis: &Vec<MultiLayout>, id: u16) -> (found: Option<usize>)
    ensures
        match found {
            Some(i) => i < multis@.len() && layout_of(multis@, id) == Some(multis@[i as int].components@),
            None => layout_of(multis@, id) is None,
        },
{
    let mut i: usize = 0;
    proof {
        assert(multis@.skip(0) =~= multis@);
    }
    while i < multis.len()
        invariant
            i <= multis@.len(),
            layout_of(multis@, id) == layout_of(multis@.skip(i as int), id),
        decreases multis@.len() - i,
    {
        proof {
            assert(multis@.skip(i as int)[0] == multis@[i as int]);
            assert(multis@.skip(i as int).drop_first() =~= multis@.skip(i + 1));
        }
        if multis[i].id == id {
            return Some(i);
        }
        i = i + 1;
    }
    None
}

/// The walls a shape raises; see [`walls_of`].
fn walls_from(tiles: &Vec<TileData>, at: Point, shape: &Vec<DesignComponent>) -> (walls: Vec<Blocker>)
    ensures
        walls@ == walls_of(tiles@, at, shape@),
{
    let mut walls: Vec<Blocker> = Vec::new();
    let mut i: usize = 0;
    while i < shape.len()
        invariant
            i <= shape@.len(),
            walls@ == walls_of(tiles@, at, shape@.take(i as int)),
        decreases shape@.len() - i,
    {
        proof {
            assert(shape@.take(i + 1).drop_last() =~= shape@.take(i as int));
            assert(shape@.take(i + 1).last() == shape@[i as int]);
        }
        let c = shape[i];
        match tile_in(tiles, c.graphic) {
            Some(tile) => {
                if tile.impassable {
                    walls.push(
                        Blocker {
                            x: at.x as i32 + c.dx as i32,
                            y: at.y as i32 + c.dy as i32,
                            z: at.z as i32 + c.dz as i32,
                            height: tile.height,
                        },
                    );
                }
            },
            None => {},
        }
        i = i + 1;
    }
    proof {
        assert(shape@.take(i as int) =~= shape@);
    }
    walls
}

impl World {
    /// The walls a house raises at `at` on its foundation or its design; see
    /// [`shape_of`] and [`walls_of`].
    fn walls_for(&self, at: Point, multi: u16, design: &Option<(u32, Vec<DesignComponent>)>) -> (walls: Vec<Blocker>)
        ensures
            walls@ == walls_of(
                self.tiles@,
                at,
                shape_of(
                    self.multis@,
                    multi,
                    match design {
                        Some((revision, components)) => Some((*revision, components@)),
                        None => None,
                    },
                ),
            ),
    {
        match design {
            Some((_, components)) => walls_from(&self.tiles, at, components),
            None => match layout_index(&self.multis, multi) {
                Some(i) => walls_from(&self.tiles, at, &self.multis[i].components),
                None => {
                    let empty: Vec<DesignComponent> = Vec::new();
                    walls_from(&self.tiles, at, &empty)
                },
            },
        }
    }

    /// Whether any house on a facet stops a walker at a point; see
    /// [`stops`].
    #[verifier::loop_isolation(false)]
    pub fn blocked_at(&self, facet: u8, x: i32, y: i32, z: i32) -> (blocked: bool)
        ensures
            blocked == exists|h: int, w: int|
                0 <= h < self.houses@.len() && self.houses@[h].facet == facet && 0 <= w
                    < self.houses@[h].walls@.len() && stops(
                    #[trigger] self.houses@[h].walls@[w],
                    x as int,
                    y as int,
                    z as int,
                ),
    {
        let mut h: usize = 0;
        while h < self.houses.len()
            invariant
                h <= self.houses@.len(),
                forall|a: int, w: int|
                    0 <= a < h && self.houses@[a].facet == facet && 0 <= w < self.houses@[a].walls@.len()
                        ==> !stops(#[trigger] self.houses@[a].walls@[w], x as int, y as int, z as int),
            decreases self.houses@.len() - h,
        {
            let house = &self.houses[h];
            if house.facet == facet {
                let mut w: usize = 0;
                while w < house.walls.len()
                    invariant
                        w <= house.walls@.len(),
                        *house == self.houses@[h as int],
                        forall|v: int| 0 <= v < w ==> !stops(#[trigger] house.walls@[v], x as int, y as int, z as int),
                    decreases house.walls@.len() - w,
                {
                    let b = house.walls[w];
                    if b.x == x && b.y == y && b.z <= z && (z as i64) < b.z as i64 + b.height as i64 {
                        proof {
                            assert(stops(self.houses@[h as int].walls@[w as int], x as int, y as int, z as int));
                        }
                        return true;
                    }
                    w = w + 1;
                }
            }
            h = h + 1;
        }
        false
    }

    /// Put the saved houses back at boot, in the order they were saved.
    ///
    /// Each house stands where it stood, on its saved foundation, answering to
    /// its owner and to the co-owners, friends and bans the shard can read
    /// (see [`readable`]), with its design gathered from the design rows (see
    /// [`design_of`]); the first record of a serial takes that design. Its
    /// walls are raised again from the client's files: every impassable tile
    /// of its design, or of its foundation's layout, stops walkers where it
    /// stands (see [`walls_of`]); a house the files do not know stands without
    /// walls. A record whose serial is already taken is skipped. Whether the
    /// rules would still let the house be built is not asked.
    pub fn restore_houses(&mut self, records: Vec<HouseRecord>, designs: Vec<HouseDesignRecord>)
        requires
            old(self).wf(),
        ensures
            final(self).wf(),
            ({
                let after = house_all(
                    (houses_view(old(self).houses@), old(self).registry.bound@, Seq::empty()),
                    designs@,
                    old(self).tiles@,
                    old(self).multis@,
                    records@,
                );
                &&& houses_view(final(self).houses@) == after.0
                &&& final(self).registry.bound@ == after.1
            }),
            final(self).registry.reserved == old(self).registry.reserved,
            final(self).registry.next_serial == old(self).registry.next_serial,
            final(self).same_settings(&*old(self)),
            final(self).same_people(&*old(self)),
            final(self).roster == old(self).roster,
            final(self).pending == old(self).pending,
            final(self).ground == old(self).ground,
            final(self).decorations == old(self).decorations,
            final(self).carried == old(self).carried,
            final(self).bus == old(self).bus,
            final(self).journal == old(self).journal,
    {
        let ghost start = (houses_view(self.houses@), self.registry.bound@, Seq::<u32>::empty());
        let mut taken: Vec<u32> = Vec::new();
        proof {
            assert(records@.take(0) =~= Seq::<HouseRecord>::empty());
        }
        for record in it: records
            invariant
                self.wf(),
                ({
                    let now = house_all(
                        start,
                        designs@,
                        old(self).tiles@,
                        old(self).multis@,
                        it.seq().take(it.index() as int),
                    );
                    &&& houses_view(self.houses@) == now.0
                    &&& self.registry.bound@ == now.1
                    &&& taken@ == now.2
                }),
                self.registry.reserved == old(self).registry.reserved,
                self.registry.next_serial == old(self).registry.next_serial,
                self.same_settings(&*old(self)),
                self.same_people(&*old(self)),
                self.roster == old(self).roster,
                self.pending == old(self).pending,
                self.ground == old(self).ground,
                self.decorations == old(self).decorations,
                self.carried == old(self).carried,
                self.bus == old(self).bus,
                self.journal == old(self).journal,
        {
            let ghost k = it.index() as int;
            let ghost before = house_all(start, designs@, old(self).tiles@, old(self).multis@, it.seq().take(k));
            proof {
                assert(it.seq().take(k + 1).drop_last() =~= it.seq().take(k));
                assert(it.seq().take(k + 1).last() == record);
            }
            let design = if contains_serial(&taken, record.serial) {
                None
            } else {
                design_for(&designs, record.serial)
            };
            let ghost design_view = match &design {
                Some((revision, components)) => Some((*revision, components@)),
                None => None,
            };
            taken.push(record.serial);
            if !contains_serial(&self.registry.bound, record.serial) {
                let position = Point { x: record.x, y: record.y, z: record.z };
                let walls = self.walls_for(position, record.multi, &design);
                let house = House {
                    serial: record.serial,
                    multi: record.multi,
                    facet: record.facet,
                    position: Point { x: record.x, y: record.y, z: record.z },
                    owner: record.owner,
                    co_owners: readable_of(&record.co_owners),
                    friends: readable_of(&record.friends),
                    bans: readable_of(&record.bans),
                    age: record.age,
                    lockdowns: record.lockdowns,
                    design,
                    walls,
                };
                assert(house@ == house_from(record, design_view, old(self).tiles@, old(self).multis@));
                let ghost bound_before = self.registry.bound@;
                insert_serial(&mut self.registry.bound, record.serial);
                proof {
                    lemma_players_stay_bound(self.players@, bound_before, self.registry.bound@);
                }
                let ghost houses_before = self.houses@;
                self.houses.push(house);
                proof {
                    assert(houses_view(self.houses@) =~= houses_view(houses_before).push(
                        house_from(record, design_view, old(self).tiles@, old(self).multis@),
                    ));
                }
            }
        }
        proof {
            assert(records@.take(records@.len() as int) =~= records@);
        }
    }
}


/// A house as the store holds it: every field as it stands.
pub open spec fn saved_as(record: HouseRecord, house: HouseView) -> bool {
    &&& record.serial == house.serial
    &&& record.multi == house.multi
    &&& record.x == house.position.x
    &&& record.y == house.position.y
    &&& record.z == house.position.z
    &&& record.facet == house.facet
    &&& record.owner == house.owner
    &&& record.co_owners@ == house.co_owners
    &&& record.friends@ == house.friends
    &&& record.bans@ == house.bans
    &&& record.age == house.age
    &&& record.lockdowns == house.lockdowns
}

/// The design rows a house's design is saved as: one per component, in
/// order, each under the house's serial and the design's revision.
pub open spec fn design_rows(house: HouseView) -> Seq<HouseDesignRecord> {
    match house.design {
        Some((revision, components)) => components.map_values(
            |c: DesignComponent|
                HouseDesignRecord {
                    house: house.serial,
                    revision,
                    graphic: c.graphic,
                    dx: c.dx,
                    dy: c.dy,
                    dz: c.dz,
                    flags: c.flags,
                },
        ),
        None => Seq::empty(),
    }
}

/// The design rows of every house, house by house.
pub open spec fn all_design_rows(houses: Seq<HouseView>) -> Seq<HouseDesignRecord>
    decreases houses.len(),
{
    if houses.len() == 0 {
        Seq::empty()
    } else {
        all_design_rows(houses.drop_last()) + design_rows(houses.last())
    }
}

fn copy_serials(serials: &Vec<u32>) -> (c: Vec<u32>)
    ensures
        c@ == serials@,
{
    let mut c: Vec<u32> = Vec::new();
    let mut i: usize = 0;
    while i < serials.len()
        invariant
            i <= serials@.len(),
            c@ == serials@.take(i as int),
        decreases serials@.len() - i,
    {
        c.push(serials[i]);
        i = i + 1;
        proof {
            assert(c@ =~= serials@.take(i as int));
        }
    }
    proof {
        assert(serials@.take(i as int) =~= serials@);
    }
    c
}

impl World {
    /// Every house as the store holds it, in the order they stand.
    pub fn house_records(&self) -> (records: Vec<HouseRecord>)
        ensures
            records@.len() == self.houses@.len(),
            forall|k: int| 0 <= k < records@.len() ==> saved_as(#[trigger] records@[k], self.houses@[k]@),
    {
        let mut records: Vec<HouseRecord> = Vec::new();
        let mut i: usize = 0;
        while i < self.houses.len()
            invariant
                i <= self.houses@.len(),
                records@.len() == i,
                forall|k: int| 0 <= k < i ==> saved_as(#[trigger] records@[k], self.houses@[k]@),
            decreases self.houses@.len() - i,
        {
            let house = &self.houses[i];
            records.push(
                HouseRecord {
                    serial: house.serial,
                    multi: house.multi,
                    x: house.position.x,
                    y: house.position.y,
                    z: house.position.z,
                    facet: house.facet,
                    owner: house.owner,
                    co_owners: copy_serials(&house.co_owners),
                    friends: copy_serials(&house.friends),
                    bans: copy_serials(&house.bans),
                    age: house.age,
                    lockdowns: house.lockdowns,
                },
            );
            i = i + 1;
        }
        records
    }

    /// Every designed house's design, as the rows the store holds it in.
    pub fn house_design_records(&self) -> (rows: Vec<HouseDesignRecord>)
        ensures
            rows@ == all_design_rows(houses_view(self.houses@)),
    {
        let mut rows: Vec<HouseDesignRecord> = Vec::new();
        let mut i: usize = 0;
        proof {
            assert(houses_view(self.houses@).take(0) =~= Seq::<HouseView>::empty());
        }
        while i < self.houses.len()
            invariant
                i <= self.houses@.len(),
                rows@ == all_design_rows(houses_view(self.houses@).take(i as int)),
            decreases self.houses@.len() - i,
        {
            let ghost before = rows@;
            let house = &self.houses[i];
            if let Some((revision, components)) = &house.design {
                let mut j: usize = 0;
                while j < components.len()
                    invariant
                        j <= components@.len(),
                        rows@ == before + components@.take(j as int).map_values(
                            |c: DesignComponent|
                                HouseDesignRecord {
                                    house: house.serial,
                                    revision: *revision,
                                    graphic: c.graphic,
                                    dx: c.dx,
                                    dy: c.dy,
                                    dz: c.dz,
                                    flags: c.flags,
                                },
                        ),
                    decreases components@.len() - j,
                {
                    let c = components[j];
                    rows.push(
                        HouseDesignRecord {
                            house: house.serial,
                            revision: *revision,
                            graphic: c.graphic,
                            dx: c.dx,
                            dy: c.dy,
                            dz: c.dz,
                            flags: c.flags,
                        },
                    );
                    j = j + 1;
                    proof {
                        assert(rows@ =~= before + components@.take(j as int).map_values(
                            |c: DesignComponent|
                                HouseDesignRecord {
                                    house: house.serial,
                                    revision: *revision,
                                    graphic: c.graphic,
                                    dx: c.dx,
                                    dy: c.dy,
                                    dz: c.dz,
                                    flags: c.flags,
                                },
                        ));
                    }
                }
                proof {
                    assert(components@.take(j as int) =~= components@);
                }
            } else {
                assert(rows@ =~= before + Seq::<HouseDesignRecord>::empty());
            }
            proof {
                let hv = houses_view(self.houses@);
                assert(hv.take(i + 1).drop_last() =~= hv.take(i as int));
                assert(hv.take(i + 1).last() == self.houses@[i as int]@);
            }
            i = i + 1;
        }
        proof {
            assert(houses_view(self.houses@).take(i as int) =~= houses_view(self.houses@));
        }
        rows
    }
}

} // verus!
