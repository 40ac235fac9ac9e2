//! What a trapped container does to whoever opens it.
//!
//! A sprung trap does not bar the lid: it hurts the opener and the container
//! opens anyway, and the trap is spent whatever it did. Staff open a trapped
//! container and set nothing off. A trap with a level scales its damage by a
//! roll and the level; one without deals its raw power, the older shape a
//! hand-placed trap uses.
//!
//! The roll is the world's dice and the damage, the poison, the sound and the
//! flash are the combat and the effects systems' to carry out; this decides
//! what is owed.
use vstd::prelude::*;
use crate::records::TrapKind;

verus! {

/// The sound a sprung magic or explosion trap makes.
pub const BLAST_SOUND: u16 = 0x0307;
/// A dart trap's twang.
pub const DART_SOUND: u16 = 0x0223;
/// The hiss of a poison cloud.
pub const POISON_SOUND: u16 = 0x0231;
/// The explosion's flame.
pub const BLAST_GRAPHIC: u16 = 0x36BD;
/// The green cloud a poison trap lets out.
pub const CLOUD_GRAPHIC: u16 = 0x113A;
/// "You set off a trap!"
pub const SET_OFF_A_TRAP: u32 = 502_999;
/// "Your skin blisters from the heat!"
pub const SKIN_BLISTERS: u32 = 503_000;
/// "A dart imbeds itself in your flesh!"
pub const DART_IN_FLESH: u32 = 502_998;
/// "You are enveloped in a noxious green cloud!"
pub const NOXIOUS_CLOUD: u32 = 503_004;
/// The poison a levelless poison trap gives: greater.
pub const GREATER_POISON: u8 = 2;
/// The strongest poison there is: lethal.
pub const LETHAL_POISON: u8 = 4;

/// A trap on a container.
#[derive(Clone, Copy, Debug, PartialEq, Eq)]
pub struct Trap {
    pub kind: TrapKind,
    /// The raw damage of a trap without a level.
    pub power: u16,
    /// What a roll is multiplied by; zero for none.
    pub level: u8,
}

/// The kind of harm a blow does.
#[derive(Clone, Copy, Debug, PartialEq, Eq)]
pub enum DamageType {
    Physical,
    Fire,
    Poison,
    Energy,
}

/// What springing a trap owes the opener and the onlookers.
#[derive(Clone, Debug, PartialEq, Eq)]
pub struct Sprung {
    /// The lines the opener is told, in order.
    pub messages: Vec<u32>,
    /// The blow, if there is one.
    pub damage: Option<(u16, DamageType)>,
    /// The poison level applied, if any.
    pub poison: Option<u8>,
    /// The sound played at the container.
    pub sound: u16,
    /// The graphic flashed at the container, if any.
    pub effect: Option<u16>,
}

/// How opening a trapped container goes.
#[derive(Clone, Debug, PartialEq, Eq)]
pub enum Opening {
    /// Staff open it untouched, and are told so; the trap stays.
    ByStaff { line: String },
    /// The trap goes off and is spent.
    Sprung(Sprung),
}

/// The lowest and highest roll a levelled trap of a kind multiplies, if it
/// rolls at all.
pub open spec fn roll_range(kind: TrapKind) -> Option<(u16, u16)> {
    match kind {
        TrapKind::Explosion => Some((10, 30)),
        TrapKind::Dart => Some((5, 15)),
        _ => None,
    }
}

/// What staff are told on opening a trapped container.
pub open spec fn staff_line() -> Seq<char> {
    "That is trapped, but you open it with your godly powers."@
}

/// How many outcomes the roll for this trap has (`draw` is uniform below
/// it), when the trap rolls at all: only a levelled explosion or dart.
pub open spec fn spec_roll_span(trap: Trap) -> Option<u32> {
    match roll_range(trap.kind) {
        Some((low, high)) => if trap.level != 0 {
            Some((high - low + 1) as u32)
        } else {
            None
        },
        None => None,
    }
}

/// A levelled trap's damage: the roll (`draw` above the low end), times the
/// level, held at the largest blow there is. A levelless trap deals its
/// power.
pub open spec fn scaled(trap: Trap, low: u16, draw: u32) -> u16 {
    if trap.level == 0 {
        trap.power
    } else {
        let blow = (low + draw) * trap.level;
        if blow > u16::MAX {
            u16::MAX
        } else {
            blow as u16
        }
    }
}

/// The poison a poison trap gives: its level less one, lethal at most; and
/// greater poison from a trap without a level.
pub open spec fn trap_poison(level: u8) -> u8 {
    if level == 0 {
        GREATER_POISON
    } else if level - 1 > LETHAL_POISON {
        LETHAL_POISON
    } else {
        (level - 1) as u8
    }
}

/// What a trap owes when it goes off, given the draw for its roll.
pub open spec fn sprung_by(trap: Trap, draw: u32) -> (Seq<u32>, Option<(u16, DamageType)>, Option<u8>, u16, Option<u16>) {
    match trap.kind {
        TrapKind::Magic => (
            seq![SET_OFF_A_TRAP],
            Some((trap.power, DamageType::Energy)),
            None,
            BLAST_SOUND,
            Some(BLAST_GRAPHIC),
        ),
        TrapKind::Explosion => (
            seq![SET_OFF_A_TRAP, SKIN_BLISTERS],
            Some((scaled(trap, 10, draw), DamageType::Fire)),
            None,
            BLAST_SOUND,
            Some(BLAST_GRAPHIC),
        ),
        TrapKind::Dart => (
            seq![SET_OFF_A_TRAP, DART_IN_FLESH],
            Some((scaled(trap, 5, draw), DamageType::Physical)),
            None,
            DART_SOUND,
            None,
        ),
        TrapKind::Poison => (
            seq![SET_OFF_A_TRAP, NOXIOUS_CLOUD],
            if trap.level == 0 {
                Some((trap.power, DamageType::Poison))
            } else {
                None
            },
            Some(trap_poison(trap.level)),
            POISON_SOUND,
            Some(CLOUD_GRAPHIC),
        ),
    }
}

/// The kind of harm a trap of this kind does when it does harm.
pub open spec fn harm_of(kind: TrapKind) -> DamageType {
    match kind {
        TrapKind::Magic => DamageType::Energy,
        TrapKind::Explosion => DamageType::Fire,
        TrapKind::Dart => DamageType::Physical,
        TrapKind::Poison => DamageType::Poison,
    }
}

/// A trap without a level (every trap set by hand is one) deals exactly its
/// power, in its kind's harm, whatever the roll; a levelled explosion or dart
/// deals the roll times the level, held at the largest blow, never less than
/// its low end times the level nor more than its high end times it; a
/// levelled poison trap poisons and deals nothing; and every trap that goes
/// off says first that it was set off.
pub proof fn lemma_trap_harm(trap: Trap, draw: u32)
    requires
        spec_roll_span(trap) is Some ==> draw < spec_roll_span(trap)->0,
    ensures
        sprung_by(trap, draw).0.len() >= 1,
        sprung_by(trap, draw).0[0] == SET_OFF_A_TRAP,
        trap.level == 0 ==> sprung_by(trap, draw).1 == Some((trap.power, harm_of(trap.kind))),
        trap.level == 0 && trap.kind == TrapKind::Poison ==> sprung_by(trap, draw).2 == Some(GREATER_POISON),
        trap.level != 0 && trap.kind == TrapKind::Poison ==> sprung_by(trap, draw).1 is None
            && sprung_by(trap, draw).2 is Some,
        trap.kind == TrapKind::Magic ==> sprung_by(trap, draw).1 == Some((trap.power, DamageType::Energy)),
        trap.level != 0 && roll_range(trap.kind) is Some ==> ({
            let (low, high) = roll_range(trap.kind)->0;
            let hit = sprung_by(trap, draw).1->0;
            let blow = hit.0;
            &&& sprung_by(trap, draw).1 is Some
            &&& hit.1 == harm_of(trap.kind)
            &&& (blow == u16::MAX || blow >= low * trap.level)
            &&& blow <= high * trap.level
            &&& (blow < u16::MAX ==> (blow as int) % (trap.level as int) == 0)
        }),
{
    if trap.level != 0 && roll_range(trap.kind) is Some {
        let (low, high) = roll_range(trap.kind)->0;
        let level = trap.level as int;
        let roll = low + draw;
        assert(roll <= high);
        assert(low * level <= roll * level <= high * level) by (nonlinear_arith)
            requires
                low <= roll <= high,
                level >= 1,
        ;
        assert((roll * level) % level == 0) by (nonlinear_arith)
            requires
                level >= 1,
        ;
    }
}

/// The roll of a levelled explosion or dart steps by its level: the lowest
/// draw deals the low end times the level, and each draw one higher deals
/// one level more, held at the largest blow there is.
pub proof fn lemma_trap_roll_steps_by_level(trap: Trap, draw: u32)
    requires
        trap.level != 0,
        roll_range(trap.kind) is Some,
        draw + 1 < spec_roll_span(trap)->0,
    ensures
        ({
            let range = roll_range(trap.kind)->0;
            let low = range.0;
            let first = sprung_by(trap, 0).1->0;
            first.0 == if low * trap.level > u16::MAX { u16::MAX as int } else { low * trap.level }
        }),
        ({
            let now = sprung_by(trap, draw).1->0;
            let next = sprung_by(trap, (draw + 1) as u32).1->0;
            next.0 == if now.0 + trap.level > u16::MAX { u16::MAX as int } else { now.0 + trap.level }
        }),
{
    let range = roll_range(trap.kind)->0;
    let low = range.0;
    let level = trap.level as int;
    assert((low + draw + 1) * level == (low + draw) * level + level) by (nonlinear_arith);
    assert((low + 0) * level == low * level) by (nonlinear_arith);
}

/// What each kind of trap rolls and says: an explosion rolls ten to thirty
/// and blisters the skin, a dart rolls five to fifteen and sticks in the
/// flesh, a poison trap lets out a noxious cloud, and a magic trap says only
/// that it was set off; only a levelled trap rolls at all.
pub proof fn lemma_trap_kinds(trap: Trap, draw: u32)
    ensures
        trap.kind == TrapKind::Explosion ==> roll_range(trap.kind) == Some((10u16, 30u16))
            && sprung_by(trap, draw).0 == seq![SET_OFF_A_TRAP, SKIN_BLISTERS],
        trap.kind == TrapKind::Dart ==> roll_range(trap.kind) == Some((5u16, 15u16))
            && sprung_by(trap, draw).0 == seq![SET_OFF_A_TRAP, DART_IN_FLESH],
        trap.kind == TrapKind::Poison ==> roll_range(trap.kind) is None
            && sprung_by(trap, draw).0 == seq![SET_OFF_A_TRAP, NOXIOUS_CLOUD],
        trap.kind == TrapKind::Magic ==> roll_range(trap.kind) is None
            && sprung_by(trap, draw).0 == seq![SET_OFF_A_TRAP],
        (spec_roll_span(trap) is Some) == (trap.level != 0 && (trap.kind == TrapKind::Explosion || trap.kind
            == TrapKind::Dart)),
        trap.level != 0 && trap.kind == TrapKind::Explosion ==> spec_roll_span(trap) == Some(21u32),
        trap.level != 0 && trap.kind == TrapKind::Dart ==> spec_roll_span(trap) == Some(11u32),
{
}

/// A levelled poison trap poisons one level below its own, so one level more
/// of trap is one level more of poison until the poison is lethal; a trap
/// without a level gives greater poison.
pub proof fn lemma_trap_poison_steps_by_level(level: u8)
    ensures
        trap_poison(0) == GREATER_POISON,
        trap_poison(1) == 0,
        trap_poison(level) <= LETHAL_POISON || level == 0,
        1 <= level < 255 ==> trap_poison((level + 1) as u8) == if trap_poison(level) + 1 > LETHAL_POISON {
            LETHAL_POISON as int
        } else {
            trap_poison(level) + 1
        },
{
}

/// How many outcomes this trap's roll has, if it rolls; see
/// [`spec_roll_span`].
pub fn roll_span(trap: Trap) -> (span: Option<u32>)
    ensures
        span == spec_roll_span(trap),
{
    if trap.level == 0 {
        return None;
    }
    match trap.kind {
        TrapKind::Explosion => Some(21),
        TrapKind::Dart => Some(11),
        _ => None,
    }
}

fn scale(trap: Trap, low: u16, draw: u32) -> (blow: u16)
    requires
        trap.level != 0 ==> draw <= 20,
        low <= 10,
    ensures
        blow == scaled(trap, low, draw),
{
    if trap.level == 0 {
        return trap.power;
    }
    let roll = low + draw as u16;
    let level = trap.level as u32;
    assert((roll as u32) * level <= 30 * 255) by (nonlinear_arith)
        requires
            roll <= 30,
            level <= 255,
    ;
    let blow = (roll as u32) * level;
    if blow > 0xFFFF {
        0xFFFF
    } else {
        blow as u16
    }
}

/// Open a trapped container. Staff open it with nothing set off. Anyone
/// else sets the trap off (see [`sprung_by`]), and it is spent. `draw` is
/// the roll, uniform below [`roll_span`], for a trap that rolls; it is not
/// read for one that does not.
pub fn spring_trap(trap: Trap, staff: bool, draw: u32) -> (opening: Opening)
    requires
        spec_roll_span(trap) is Some ==> draw < spec_roll_span(trap)->0,
    ensures
        staff ==> (opening matches Opening::ByStaff { line } && line@ == staff_line()),
        !staff ==> (opening matches Opening::Sprung(s) && (
            s.messages@,
            s.damage,
            s.poison,
            s.sound,
            s.effect,
        ) == sprung_by(trap, draw)),
{
    if staff {
        return Opening::ByStaff {
            line: "That is trapped, but you open it with your godly powers.".to_owned(),
        };
    }
    let sprung = match trap.kind {
        TrapKind::Magic => Sprung {
            messages: vec![SET_OFF_A_TRAP],
            damage: Some((trap.power, DamageType::Energy)),
            poison: None,
            sound: BLAST_SOUND,
            effect: Some(BLAST_GRAPHIC),
        },
        TrapKind::Explosion => Sprung {
            messages: vec![SET_OFF_A_TRAP, SKIN_BLISTERS],
            damage: Some((scale(trap, 10, draw), DamageType::Fire)),
            poison: None,
            sound: BLAST_SOUND,
            effect: Some(BLAST_GRAPHIC),
        },
        TrapKind::Dart => Sprung {
            messages: vec![SET_OFF_A_TRAP, DART_IN_FLESH],
            damage: Some((scale(trap, 5, draw), DamageType::Physical)),
            poison: None,
            sound: DART_SOUND,
            effect: None,
        },
        TrapKind::Poison => {
            let (damage, poison) = if trap.level == 0 {
                (Some((trap.power, DamageType::Poison)), GREATER_POISON)
            } else {
                let less = trap.level - 1;
                (None, if less > LETHAL_POISON { LETHAL_POISON } else { less })
            };
            Sprung {
                messages: vec![SET_OFF_A_TRAP, NOXIOUS_CLOUD],
                damage,
                poison: Some(poison),
                sound: POISON_SOUND,
                effect: Some(CLOUD_GRAPHIC),
            }
        },
    };
    proof {
        assert(sprung.messages@ =~= sprung_by(trap, draw).0);
    }
    Opening::Sprung(sprung)
}

} // verus!
