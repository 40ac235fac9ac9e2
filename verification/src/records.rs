//! The shapes things take on disk, and the small conversions at that seam.
//!
//! A record is deliberately not the live state it describes: the live side
//! carries ticks that restart with the shard and entities that do not survive
//! it, the record only what does. The conversions between the two are kept
//! here, each in one place.
use vstd::prelude::*;
use crate::traps::Trap;

verus! {

/// The graphic of a corpse. Its saved `amount` is the body it was, not a pile.
pub const CORPSE_GRAPHIC: u16 = 0x2006;

/// The graphic of gold coin, which is always a stackable pile.
pub const GOLD_GRAPHIC: u16 = 0x0EED;

/// The layer a ridden creature's item is worn on.
pub const MOUNT_LAYER: u8 = 0x19;

/// The most a single pile may hold.
pub const MAX_STACK: u16 = 60000;

/// A point inside a container's gump, as the live component holds it.
#[derive(Clone, Copy, Debug, PartialEq, Eq)]
pub struct GumpPoint {
    pub x: i32,
    pub y: i32,
}

/// Narrow a live contained-item point to the persisted pair.
///
/// A client drop enters this state from unsigned 16-bit wire fields and a
/// restore widens the same stored fields back, so every live point fits; a
/// point that does not is a corrupted component and is refused by `requires`.
pub fn persisted_container_position(position: GumpPoint) -> (persisted: (u16, u16))
    requires
        0 <= position.x <= u16::MAX,
        0 <= position.y <= u16::MAX,
    ensures
        persisted.0 == position.x,
        persisted.1 == position.y,
{
    (position.x as u16, position.y as u16)
}

/// Whether a saved pile's amount is one the live world can hold: any amount
/// on a corpse (where it names the body), otherwise one to [`MAX_STACK`].
pub open spec fn spec_valid_saved_amount(graphic: u16, amount: u16) -> bool {
    graphic == CORPSE_GRAPHIC || (1 <= amount && amount <= MAX_STACK)
}

/// Whether a saved item's amount may be restored. See
/// [`spec_valid_saved_amount`].
pub fn valid_saved_amount(graphic: u16, amount: u16) -> (valid: bool)
    ensures
        valid == spec_valid_saved_amount(graphic, amount),
{
    graphic == CORPSE_GRAPHIC || (1 <= amount && amount <= MAX_STACK)
}

/// The eight ways a mobile or a corpse can face, in wire order.
#[derive(Clone, Copy, Debug, PartialEq, Eq)]
pub enum Direction {
    North,
    Right,
    East,
    Down,
    South,
    Left,
    West,
    Up,
}

/// The wire number of a direction.
pub open spec fn direction_code(d: Direction) -> u8 {
    match d {
        Direction::North => 0,
        Direction::Right => 1,
        Direction::East => 2,
        Direction::Down => 3,
        Direction::South => 4,
        Direction::Left => 5,
        Direction::West => 6,
        Direction::Up => 7,
    }
}

/// The direction a byte names: its low three bits, whatever else is set.
pub open spec fn direction_of(bits: u8) -> Direction {
    let low = bits % 8;
    if low == 0 {
        Direction::North
    } else if low == 1 {
        Direction::Right
    } else if low == 2 {
        Direction::East
    } else if low == 3 {
        Direction::Down
    } else if low == 4 {
        Direction::South
    } else if low == 5 {
        Direction::Left
    } else if low == 6 {
        Direction::West
    } else {
        Direction::Up
    }
}

impl Direction {
    /// The direction a byte names; see [`direction_of`].
    pub fn from_bits(bits: u8) -> (d: Direction)
        ensures
            d == direction_of(bits),
    {
        let low = bits % 8;
        if low == 0 {
            Direction::North
        } else if low == 1 {
            Direction::Right
        } else if low == 2 {
            Direction::East
        } else if low == 3 {
            Direction::Down
        } else if low == 4 {
            Direction::South
        } else if low == 5 {
            Direction::Left
        } else if low == 6 {
            Direction::West
        } else {
            Direction::Up
        }
    }

    /// The wire number of this direction.
    pub fn to_bits(&self) -> (bits: u8)
        ensures
            bits == direction_code(*self),
    {
        match self {
            Direction::North => 0,
            Direction::Right => 1,
            Direction::East => 2,
            Direction::Down => 3,
            Direction::South => 4,
            Direction::Left => 5,
            Direction::West => 6,
            Direction::Up => 7,
        }
    }
}

/// Reading a direction back from its wire number gives the same direction.
pub proof fn lemma_direction_round_trip(d: Direction)
    ensures
        direction_of(direction_code(d)) == d,
{
}

/// The kinds of trap a container can carry.
#[derive(Clone, Copy, Debug, PartialEq, Eq)]
pub enum TrapKind {
    Magic,
    Explosion,
    Dart,
    Poison,
}

/// A trap kind as one saved byte. Written out rather than derived so the
/// numbering on disk cannot drift when the enum gains a variant.
pub open spec fn spec_trap_kind_code(kind: TrapKind) -> u8 {
    match kind {
        TrapKind::Magic => 0,
        TrapKind::Explosion => 1,
        TrapKind::Dart => 2,
        TrapKind::Poison => 3,
    }
}

/// The inverse. An unknown code reads as a magic trap rather than as no trap:
/// a chest that quietly stops being trapped is the failure the column exists
/// to prevent.
pub open spec fn spec_trap_kind_from(code: u8) -> TrapKind {
    if code == 1 {
        TrapKind::Explosion
    } else if code == 2 {
        TrapKind::Dart
    } else if code == 3 {
        TrapKind::Poison
    } else {
        TrapKind::Magic
    }
}

/// A trap kind as one saved byte; see [`spec_trap_kind_code`].
pub fn trap_kind_code(kind: TrapKind) -> (code: u8)
    ensures
        code == spec_trap_kind_code(kind),
{
    match kind {
        TrapKind::Magic => 0,
        TrapKind::Explosion => 1,
        TrapKind::Dart => 2,
        TrapKind::Poison => 3,
    }
}

/// A saved byte back into a trap kind; see [`spec_trap_kind_from`].
pub fn trap_kind_from(code: u8) -> (kind: TrapKind)
    ensures
        kind == spec_trap_kind_from(code),
{
    match code {
        1 => TrapKind::Explosion,
        2 => TrapKind::Dart,
        3 => TrapKind::Poison,
        _ => TrapKind::Magic,
    }
}

/// A trap's kind survives the trip to disk and back, and every code this
/// engine writes reads back as the code it was.
pub proof fn lemma_trap_kind_round_trip(kind: TrapKind, code: u8)
    ensures
        spec_trap_kind_from(spec_trap_kind_code(kind)) == kind,
        code < 4 ==> spec_trap_kind_code(spec_trap_kind_from(code)) == code,
        code >= 4 ==> spec_trap_kind_from(code) == TrapKind::Magic,
{
}

/// A pet's standing order.
#[derive(Clone, Copy, Debug, PartialEq, Eq)]
pub enum PetOrder {
    Follow,
    Come,
    Stay,
    Guard,
    Attack,
    Stop,
}

/// A pet's order as one saved byte, numbered by hand for the same reason the
/// trap kinds are.
pub open spec fn spec_pet_order_code(order: PetOrder) -> u8 {
    match order {
        PetOrder::Follow => 0,
        PetOrder::Come => 1,
        PetOrder::Stay => 2,
        PetOrder::Guard => 3,
        PetOrder::Attack => 4,
        PetOrder::Stop => 5,
    }
}

/// The inverse. An unknown code reads as "follow", the harmless order.
pub open spec fn spec_pet_order_from(code: u8) -> PetOrder {
    if code == 1 {
        PetOrder::Come
    } else if code == 2 {
        PetOrder::Stay
    } else if code == 3 {
        PetOrder::Guard
    } else if code == 4 {
        PetOrder::Attack
    } else if code == 5 {
        PetOrder::Stop
    } else {
        PetOrder::Follow
    }
}

/// A pet's order as one saved byte; see [`spec_pet_order_code`].
pub fn pet_order_code(order: PetOrder) -> (code: u8)
    ensures
        code == spec_pet_order_code(order),
{
    match order {
        PetOrder::Follow => 0,
        PetOrder::Come => 1,
        PetOrder::Stay => 2,
        PetOrder::Guard => 3,
        PetOrder::Attack => 4,
        PetOrder::Stop => 5,
    }
}

/// A saved byte back into a pet's order; see [`spec_pet_order_from`].
pub fn pet_order_from(code: u8) -> (order: PetOrder)
    ensures
        order == spec_pet_order_from(code),
{
    match code {
        1 => PetOrder::Come,
        2 => PetOrder::Stay,
        3 => PetOrder::Guard,
        4 => PetOrder::Attack,
        5 => PetOrder::Stop,
        _ => PetOrder::Follow,
    }
}

/// A pet's order survives the trip to disk and back, and every code this
/// engine writes reads back as the code it was.
pub proof fn lemma_pet_order_round_trip(order: PetOrder, code: u8)
    ensures
        spec_pet_order_from(spec_pet_order_code(order)) == order,
        code < 6 ==> spec_pet_order_code(spec_pet_order_from(code)) == code,
        code >= 6 ==> spec_pet_order_from(code) == PetOrder::Follow,
{
}

/// Where a saved item is.
#[derive(Clone, Copy, Debug, PartialEq, Eq)]
pub enum ItemLocation {
    /// Worn by a mobile on a layer.
    Equipped { mobile: u32, layer: u8 },
    /// Inside a container, at a gump point and a grid slot.
    Contained { container: u32, x: u16, y: u16, grid: u8 },
    /// Loose on a facet.
    Ground { facet: u8, x: u16, y: u16, z: i8 },
}

/// How a corpse came to be one: whose body it was, whether that was a
/// player, who killed it, whether it has been carved, and which way it lies.
/// A shard that restarts while a body lies keeps that story.
#[derive(Clone, Debug, PartialEq, Eq)]
pub struct CorpseData {
    /// Whose body it was.
    pub owner: String,
    /// Whether that was a player.
    pub player: bool,
    /// Who killed it, if anybody.
    pub killer: Option<String>,
    /// Whether it has been carved.
    pub carved: bool,
    /// Which way the body lies, as a wire direction byte.
    pub facing: u8,
}

impl CorpseData {
    /// An equal copy.
    pub fn copy(&self) -> (c: CorpseData)
        ensures
            c == *self,
    {
        let killer = match &self.killer {
            Some(k) => Some(k.clone()),
            None => None,
        };
        CorpseData {
            owner: self.owner.clone(),
            player: self.player,
            killer,
            carved: self.carved,
            facing: self.facing,
        }
    }
}

/// A trap as it is saved: its kind as the hand-numbered code, its power and
/// its level.
#[derive(Clone, Copy, Debug, PartialEq, Eq)]
pub struct TrapRecord {
    pub kind: u8,
    pub power: u16,
    pub level: u8,
}

/// The house an item is locked down in, and the access code of the secure
/// container it is, if it is one.
#[derive(Clone, Copy, Debug, PartialEq, Eq)]
pub struct LockdownRecord {
    pub house: u32,
    pub secure: Option<u8>,
}

/// A saved trap as it is read back: its kind's code goes through the kind,
/// so a code this engine does not know comes back as a magic trap.
pub open spec fn spec_restored_trap(trap: Option<TrapRecord>) -> Option<TrapRecord> {
    match trap {
        Some(t) => Some(TrapRecord { kind: spec_trap_kind_code(spec_trap_kind_from(t.kind)), ..t }),
        None => None,
    }
}

/// A saved trap as it is read back; see [`spec_restored_trap`].
pub fn restored_trap(trap: Option<TrapRecord>) -> (back: Option<TrapRecord>)
    ensures
        back == spec_restored_trap(trap),
{
    match trap {
        Some(t) => Some(TrapRecord { kind: trap_kind_code(trap_kind_from(t.kind)), ..t }),
        None => None,
    }
}

/// One item as it is saved.
#[derive(Clone, Debug, PartialEq, Eq)]
pub struct ItemRecord {
    pub serial: u32,
    /// The mobile at the top of whatever the item is nested in; `None` for an
    /// item loose on the ground.
    pub owner: Option<u32>,
    pub graphic: u16,
    pub hue: u16,
    pub amount: u16,
    pub stackable: bool,
    pub container_gump: Option<u16>,
    pub price: Option<u32>,
    pub name: Option<String>,
    pub corpse: Option<CorpseData>,
    /// The item kind and the material it is made of, by id.
    pub kind: Option<u16>,
    pub material: Option<u16>,
    /// A spellbook's learned spells, one bit each.
    pub spellbook: Option<u64>,
    /// The poison on it: its level and the charges left.
    pub poison: Option<(u8, u8)>,
    pub trap: Option<TrapRecord>,
    /// How many uses are left in a thing that wears out.
    pub uses: Option<u16>,
    /// Whose work it is: whether it is exceptional, and its maker's name if
    /// one is known.
    pub crafted: Option<(bool, Option<String>)>,
    /// Where a marked rune points: facet, x, y, z.
    pub rune: Option<(u8, u16, u16, i8)>,
    pub locked_down: Option<LockdownRecord>,
    /// The installed addon it is a tile of: the deed's kind and the root
    /// tile's serial.
    pub addon: Option<(u16, u32)>,
    pub location: ItemLocation,
}

fn copy_crafted(crafted: &Option<(bool, Option<String>)>) -> (c: Option<(bool, Option<String>)>)
    ensures
        c == *crafted,
{
    match crafted {
        Some((fine, maker)) => Some((*fine, copy_name(maker))),
        None => None,
    }
}

impl ItemRecord {
    /// An equal copy.
    pub fn copy(&self) -> (c: ItemRecord)
        ensures
            c == *self,
    {
        let name = match &self.name {
            Some(n) => Some(n.clone()),
            None => None,
        };
        let corpse = match &self.corpse {
            Some(story) => Some(story.copy()),
            None => None,
        };
        ItemRecord {
            serial: self.serial,
            owner: self.owner,
            graphic: self.graphic,
            hue: self.hue,
            amount: self.amount,
            stackable: self.stackable,
            container_gump: self.container_gump,
            price: self.price,
            name,
            corpse,
            kind: self.kind,
            material: self.material,
            spellbook: self.spellbook,
            poison: self.poison,
            trap: self.trap,
            uses: self.uses,
            crafted: copy_crafted(&self.crafted),
            rune: self.rune,
            locked_down: self.locked_down,
            addon: self.addon,
            location: self.location,
        }
    }
}

/// Which way a restored corpse lies: the facing saved with its story, or north
/// for a save written before facings were saved.
pub open spec fn spec_restored_facing(record: ItemRecord) -> Direction {
    match record.corpse {
        Some(story) => direction_of(story.facing),
        None => Direction::North,
    }
}

/// Which way a restored corpse lies; see [`spec_restored_facing`].
pub fn restored_facing(record: &ItemRecord) -> (d: Direction)
    ensures
        d == spec_restored_facing(*record),
{
    match &record.corpse {
        Some(story) => Direction::from_bits(story.facing),
        None => Direction::North,
    }
}

/// The stat arrows as saved, and how many ticks ago each stat last rose: an
/// age rather than a tick, since the tick counter starts again at every boot.
#[derive(Clone, Copy, Debug, PartialEq, Eq)]
pub struct StatLockRecord {
    pub strength: u8,
    pub dexterity: u8,
    pub intelligence: u8,
    pub strength_age: u64,
    pub dexterity_age: u64,
    pub intelligence_age: u64,
}

/// One character as it is saved.
#[derive(Clone, Debug, PartialEq, Eq)]
pub struct CharacterRecord {
    pub serial: u32,
    pub account: String,
    pub name: String,
    /// The living body, even for a ghost: the grey one is derived at login.
    pub body: u16,
    pub hue: u16,
    pub facet: u8,
    pub x: u16,
    pub y: u16,
    pub z: i8,
    pub facing: u8,
    pub strength: u16,
    pub dexterity: u16,
    pub intelligence: u16,
    pub dead: bool,
    pub fame: i32,
    pub karma: i32,
    pub murders: u32,
    /// The guild it is a member of, its title and its rank there (empty and
    /// zero outside a guild), and the guild that has asked it to join.
    pub guild: Option<u32>,
    pub guild_title: String,
    pub guild_rank: u8,
    pub guild_candidate: Option<u32>,
    pub stat_locks: StatLockRecord,
}

impl CharacterRecord {
    /// An equal copy.
    pub fn copy(&self) -> (c: CharacterRecord)
        ensures
            c == *self,
    {
        CharacterRecord {
            serial: self.serial,
            account: self.account.clone(),
            name: self.name.clone(),
            body: self.body,
            hue: self.hue,
            facet: self.facet,
            x: self.x,
            y: self.y,
            z: self.z,
            facing: self.facing,
            strength: self.strength,
            dexterity: self.dexterity,
            intelligence: self.intelligence,
            dead: self.dead,
            fame: self.fame,
            karma: self.karma,
            murders: self.murders,
            guild: self.guild,
            guild_title: self.guild_title.clone(),
            guild_rank: self.guild_rank,
            guild_candidate: self.guild_candidate,
            stat_locks: self.stat_locks,
        }
    }
}


/// The parts of a corpse's story that are its own, apart from how the body
/// lies.
#[derive(Clone, Debug, PartialEq, Eq)]
pub struct CorpseStory {
    pub owner: String,
    pub player: bool,
    pub killer: Option<String>,
    pub carved: bool,
}

/// An item standing in the world, as what a save reads off it: each part it
/// may or may not carry.
#[derive(Clone, Debug, PartialEq, Eq)]
pub struct LiveItem {
    /// The serial it is bound to, if any.
    pub serial: Option<u32>,
    /// Its graphic and hue, if it is drawn at all.
    pub drawn: Option<(u16, u16)>,
    /// How many it stands for, if it is a pile.
    pub amount: Option<u16>,
    /// For a corpse: the body that lies in it and the facing byte it lies
    /// with.
    pub corpse_body: Option<(u16, u8)>,
    pub stackable: bool,
    pub container_gump: Option<u16>,
    pub price: Option<u32>,
    pub name: Option<String>,
    /// For a corpse: how it came to be one.
    pub corpse: Option<CorpseStory>,
    pub kind: Option<u16>,
    pub material: Option<u16>,
    pub spellbook: Option<u64>,
    /// Its poison's level and charges.
    pub poison: Option<(u8, u8)>,
    pub trap: Option<Trap>,
    pub uses: Option<u16>,
    /// Whether it is exceptional, if its quality is marked.
    pub quality: Option<bool>,
    /// Who made it, if anybody is recorded.
    pub maker: Option<String>,
    pub rune: Option<(u8, u16, u16, i8)>,
    /// The house it is locked down in and the secure access code.
    pub locked_down: Option<(u32, Option<u8>)>,
    pub addon: Option<(u16, u32)>,
}

/// Whose work an item is, as saved: its marked quality with the maker, or,
/// with no quality marked but a maker known, ordinary work by that maker;
/// nothing when neither is known.
pub open spec fn spec_crafted(quality: Option<bool>, maker: Option<String>) -> Option<(bool, Option<String>)> {
    match quality {
        Some(fine) => Some((fine, maker)),
        None => match maker {
            Some(_) => Some((false, maker)),
            None => None,
        },
    }
}

/// A trap as saved; see [`spec_trap_kind_code`].
pub open spec fn spec_trap_record(trap: Trap) -> TrapRecord {
    TrapRecord { kind: spec_trap_kind_code(trap.kind), power: trap.power, level: trap.level }
}

/// A trap this engine saved is read back exactly as it was saved, and a
/// trap read back is saved again as it was read.
pub proof fn lemma_saved_trap_reads_back(trap: Trap, saved: Option<TrapRecord>)
    ensures
        spec_restored_trap(Some(spec_trap_record(trap))) == Some(spec_trap_record(trap)),
        spec_restored_trap(spec_restored_trap(saved)) == spec_restored_trap(saved),
{
}

/// An item's saved record, owned by `owner` and at `location`: none for an
/// item with no serial or nothing drawn. A corpse's amount is the body lying
/// in it (one for a bodiless sack), anything else's is its pile, one when it
/// is not a pile; a corpse's story keeps the way the body lies, or faces
/// nowhere (zero) for a bodiless sack. Every other part it carries is saved
/// as it stands, a trap by its kind's code, and whose work it is by
/// [`spec_crafted`].
pub open spec fn spec_item_record(item: LiveItem, owner: Option<u32>, location: ItemLocation) -> Option<ItemRecord> {
    match (item.serial, item.drawn) {
        (Some(serial), Some((graphic, hue))) => Some(
            ItemRecord {
                serial,
                owner,
                graphic,
                hue,
                amount: if graphic == CORPSE_GRAPHIC {
                    match item.corpse_body {
                        Some((body, _)) => body,
                        None => 1,
                    }
                } else {
                    match item.amount {
                        Some(amount) => amount,
                        None => 1,
                    }
                },
                stackable: item.stackable,
                container_gump: item.container_gump,
                price: item.price,
                name: item.name,
                corpse: match item.corpse {
                    Some(story) => Some(
                        CorpseData {
                            owner: story.owner,
                            player: story.player,
                            killer: story.killer,
                            carved: story.carved,
                            facing: match item.corpse_body {
                                Some((_, facing)) => facing,
                                None => 0,
                            },
                        },
                    ),
                    None => None,
                },
                kind: item.kind,
                material: item.material,
                spellbook: item.spellbook,
                poison: item.poison,
                trap: match item.trap {
                    Some(trap) => Some(spec_trap_record(trap)),
                    None => None,
                },
                uses: item.uses,
                crafted: spec_crafted(item.quality, item.maker),
                rune: item.rune,
                locked_down: match item.locked_down {
                    Some((house, secure)) => Some(LockdownRecord { house, secure }),
                    None => None,
                },
                addon: item.addon,
                location,
            },
        ),
        _ => None,
    }
}

fn crafted_record(quality: Option<bool>, maker: &Option<String>) -> (c: Option<(bool, Option<String>)>)
    ensures
        c == spec_crafted(quality, *maker),
{
    match quality {
        Some(fine) => Some((fine, copy_name(maker))),
        None => match maker {
            Some(_) => Some((false, copy_name(maker))),
            None => None,
        },
    }
}

fn copy_name(name: &Option<String>) -> (c: Option<String>)
    ensures
        c == *name,
{
    match name {
        Some(n) => Some(n.clone()),
        None => None,
    }
}

/// What a save records of an item standing in the world; see
/// [`spec_item_record`].
pub fn item_record(item: &LiveItem, owner: Option<u32>, location: ItemLocation) -> (record: Option<ItemRecord>)
    ensures
        record == spec_item_record(*item, owner, location),
{
    let serial = match item.serial {
        Some(serial) => serial,
        None => return None,
    };
    let (graphic, hue) = match item.drawn {
        Some(drawn) => drawn,
        None => return None,
    };
    let amount = if graphic == CORPSE_GRAPHIC {
        match item.corpse_body {
            Some((body, _)) => body,
            None => 1,
        }
    } else {
        match item.amount {
            Some(amount) => amount,
            None => 1,
        }
    };
    let corpse = match &item.corpse {
        Some(story) => Some(
            CorpseData {
                owner: story.owner.clone(),
                player: story.player,
                killer: copy_name(&story.killer),
                carved: story.carved,
                facing: match item.corpse_body {
                    Some((_, facing)) => facing,
                    None => 0,
                },
            },
        ),
        None => None,
    };
    Some(
        ItemRecord {
            serial,
            owner,
            graphic,
            hue,
            amount,
            stackable: item.stackable,
            container_gump: item.container_gump,
            price: item.price,
            name: copy_name(&item.name),
            corpse,
            kind: item.kind,
            material: item.material,
            spellbook: item.spellbook,
            poison: item.poison,
            trap: match item.trap {
                Some(trap) => Some(
                    TrapRecord { kind: trap_kind_code(trap.kind), power: trap.power, level: trap.level },
                ),
                None => None,
            },
            uses: item.uses,
            crafted: crafted_record(item.quality, &item.maker),
            rune: item.rune,
            locked_down: match item.locked_down {
                Some((house, secure)) => Some(LockdownRecord { house, secure }),
                None => None,
            },
            addon: item.addon,
            location,
        },
    )
}

} // verus!
