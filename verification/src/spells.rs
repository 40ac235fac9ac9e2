//! Where a spell lands once its aim is known.
//!
//! The cast has paid and rolled; what is left is to decide who takes the
//! spell. An offensive spell aimed at a mobile that carries a magic reflect
//! bounces back at its own caster, spending the reflect. Then each kind of
//! spell lands on its own terms: a blow on the aimed mobile, a blast centred
//! on the caster for a self-cast and on the aimed spot otherwise, a mending
//! on the aimed mobile or else on the caster, a poison whose strength rises
//! with the caster's Magery. Carrying the landing out (the blow, the cure,
//! the teleport) is the work of the systems that hold the mobiles.
use vstd::prelude::*;
use crate::types::Point;

verus! {

/// What a spell does, by kind.
#[derive(Clone, Copy, Debug, PartialEq, Eq)]
pub enum SpellEffect {
    Damage,
    AreaDamage,
    Heal,
    Poison,
    Cure,
    AreaCure,
    Teleport,
    StatMod,
    Resurrect,
    Mark,
    Recall,
    GateTravel,
    BehaviourBuff,
    Field,
    Paralyze,
    /// A spell that casts and whose effect is not built yet.
    Unimplemented,
}

/// Whether a spell of this kind can be turned back by a magic reflect.
pub open spec fn spec_offensive(effect: SpellEffect) -> bool {
    effect == SpellEffect::Damage || effect == SpellEffect::Poison || effect == SpellEffect::Paralyze
}

/// Whether a spell of this kind can be turned back by a magic reflect; see
/// [`spec_offensive`].
pub fn offensive(effect: SpellEffect) -> (turned: bool)
    ensures
        turned == spec_offensive(effect),
{
    match effect {
        SpellEffect::Damage | SpellEffect::Poison | SpellEffect::Paralyze => true,
        _ => false,
    }
}

/// Whether the aimed mobile is asked to spend a magic reflect: an offensive
/// spell aimed at a mobile.
pub open spec fn spec_asks_reflect(effect: SpellEffect, target: Option<u32>) -> bool {
    spec_offensive(effect) && target is Some
}

/// Whether the aimed mobile is asked to spend a magic reflect; see
/// [`spec_asks_reflect`].
pub fn asks_reflect(effect: SpellEffect, target: Option<u32>) -> (asks: bool)
    ensures
        asks == spec_asks_reflect(effect, target),
{
    offensive(effect) && target.is_some()
}

/// Who and where a spell is aimed at after any reflect.
#[derive(Clone, Copy, Debug, PartialEq, Eq)]
pub struct SpellAim {
    pub target: Option<u32>,
    pub location: Point,
    /// Whether a reflect turned it back at its caster.
    pub reflected: bool,
}

/// The aim after a reflect: a reflect that the aimed mobile spent turns an
/// offensive spell back on its caster, at the caster's feet, when the caster
/// has a serial to be aimed at; anything else keeps its aim.
pub open spec fn spec_aim_spell(
    effect: SpellEffect,
    caster: Option<u32>,
    caster_at: Point,
    target: Option<u32>,
    location: Point,
    reflect_spent: bool,
) -> SpellAim {
    if spec_asks_reflect(effect, target) && reflect_spent && caster is Some {
        SpellAim { target: caster, location: caster_at, reflected: true }
    } else {
        SpellAim { target, location, reflected: false }
    }
}

/// The aim after a reflect; see [`spec_aim_spell`]. `reflect_spent` is
/// whether the aimed mobile had a reflect and spent it, asked only when
/// [`asks_reflect`] says so.
pub fn aim_spell(
    effect: SpellEffect,
    caster: Option<u32>,
    caster_at: Point,
    target: Option<u32>,
    location: Point,
    reflect_spent: bool,
) -> (aim: SpellAim)
    ensures
        aim == spec_aim_spell(effect, caster, caster_at, target, location, reflect_spent),
{
    if asks_reflect(effect, target) && reflect_spent && caster.is_some() {
        SpellAim { target: caster, location: caster_at, reflected: true }
    } else {
        SpellAim { target, location, reflected: false }
    }
}

/// The level of poison a caster's Magery lands: one for each three hundred
/// points, at most two.
pub open spec fn spec_poison_level(magery: u16) -> u8 {
    if magery / 300 < 2 {
        (magery / 300) as u8
    } else {
        2
    }
}

/// The level of poison a caster's Magery lands; see [`spec_poison_level`].
pub fn poison_level(magery: u16) -> (level: u8)
    ensures
        level == spec_poison_level(magery),
{
    let steps = magery / 300;
    if steps < 2 {
        steps as u8
    } else {
        2
    }
}

/// What a spell does where it lands.
#[derive(Clone, Copy, Debug, PartialEq, Eq)]
pub enum Landing {
    /// Nothing: no mobile to land on, or an effect not built yet.
    Nothing,
    Strike { target: u32 },
    Blast { centre: Point },
    Mend { who: u32 },
    Poison { target: u32, level: u8 },
    Cure { who: u32 },
    CureArea { centre: Point },
    Teleport { to: Point },
    StatMod { who: u32 },
    Raise { target: u32 },
    Mark { rune: Option<u32> },
    Recall { from: Option<u32> },
    Gate { from: Option<u32> },
    Buff { who: u32 },
    Field { at: Point },
    Paralyze { target: u32 },
}

/// The aimed mobile, or else the caster.
pub open spec fn aimed_or_caster(aim: SpellAim, caster: Option<u32>) -> Option<u32> {
    match aim.target {
        Some(t) => Some(t),
        None => caster,
    }
}

/// Where a spell lands, given its kind, whether it was a self-cast, the
/// caster's serial and place, its aim after any reflect, and the caster's
/// Magery.
pub open spec fn spec_landing(
    effect: SpellEffect,
    self_cast: bool,
    caster: Option<u32>,
    caster_at: Point,
    aim: SpellAim,
    magery: u16,
) -> Landing {
    match effect {
        SpellEffect::Damage => match aim.target {
            Some(t) => Landing::Strike { target: t },
            None => Landing::Nothing,
        },
        SpellEffect::AreaDamage => Landing::Blast {
            centre: if self_cast {
                caster_at
            } else {
                aim.location
            },
        },
        SpellEffect::Heal => match aimed_or_caster(aim, caster) {
            Some(w) => Landing::Mend { who: w },
            None => Landing::Nothing,
        },
        SpellEffect::Poison => match aim.target {
            Some(t) => Landing::Poison { target: t, level: spec_poison_level(magery) },
            None => Landing::Nothing,
        },
        SpellEffect::Cure => match aimed_or_caster(aim, caster) {
            Some(w) => Landing::Cure { who: w },
            None => Landing::Nothing,
        },
        SpellEffect::AreaCure => Landing::CureArea { centre: aim.location },
        SpellEffect::Teleport => Landing::Teleport { to: aim.location },
        SpellEffect::StatMod => match aimed_or_caster(aim, caster) {
            Some(w) => Landing::StatMod { who: w },
            None => Landing::Nothing,
        },
        SpellEffect::Resurrect => match aim.target {
            Some(t) => Landing::Raise { target: t },
            None => Landing::Nothing,
        },
        SpellEffect::Mark => Landing::Mark { rune: aim.target },
        SpellEffect::Recall => Landing::Recall { from: aim.target },
        SpellEffect::GateTravel => Landing::Gate { from: aim.target },
        SpellEffect::BehaviourBuff => match aimed_or_caster(aim, caster) {
            Some(w) => Landing::Buff { who: w },
            None => Landing::Nothing,
        },
        SpellEffect::Field => Landing::Field { at: aim.location },
        SpellEffect::Paralyze => match aim.target {
            Some(t) => Landing::Paralyze { target: t },
            None => Landing::Nothing,
        },
        SpellEffect::Unimplemented => Landing::Nothing,
    }
}

/// Where a spell lands; see [`spec_landing`].
pub fn landing(
    effect: SpellEffect,
    self_cast: bool,
    caster: Option<u32>,
    caster_at: Point,
    aim: SpellAim,
    magery: u16,
) -> (landed: Landing)
    ensures
        landed == spec_landing(effect, self_cast, caster, caster_at, aim, magery),
{
    let aimed_or_caster = match aim.target {
        Some(t) => Some(t),
        None => caster,
    };
    match effect {
        SpellEffect::Damage => match aim.target {
            Some(t) => Landing::Strike { target: t },
            None => Landing::Nothing,
        },
        SpellEffect::AreaDamage => Landing::Blast {
            centre: if self_cast {
                caster_at
            } else {
                aim.location
            },
        },
        SpellEffect::Heal => match aimed_or_caster {
            Some(w) => Landing::Mend { who: w },
            None => Landing::Nothing,
        },
        SpellEffect::Poison => match aim.target {
            Some(t) => Landing::Poison { target: t, level: poison_level(magery) },
            None => Landing::Nothing,
        },
        SpellEffect::Cure => match aimed_or_caster {
            Some(w) => Landing::Cure { who: w },
            None => Landing::Nothing,
        },
        SpellEffect::AreaCure => Landing::CureArea { centre: aim.location },
        SpellEffect::Teleport => Landing::Teleport { to: aim.location },
        SpellEffect::StatMod => match aimed_or_caster {
            Some(w) => Landing::StatMod { who: w },
            None => Landing::Nothing,
        },
        SpellEffect::Resurrect => match aim.target {
            Some(t) => Landing::Raise { target: t },
            None => Landing::Nothing,
        },
        SpellEffect::Mark => Landing::Mark { rune: aim.target },
        SpellEffect::Recall => Landing::Recall { from: aim.target },
        SpellEffect::GateTravel => Landing::Gate { from: aim.target },
        SpellEffect::BehaviourBuff => match aimed_or_caster {
            Some(w) => Landing::Buff { who: w },
            None => Landing::Nothing,
        },
        SpellEffect::Field => Landing::Field { at: aim.location },
        SpellEffect::Paralyze => match aim.target {
            Some(t) => Landing::Paralyze { target: t },
            None => Landing::Nothing,
        },
        SpellEffect::Unimplemented => Landing::Nothing,
    }
}

/// The mobile a landing lands on, if it lands on one.
pub open spec fn landed_on(landed: Landing) -> Option<u32> {
    match landed {
        Landing::Strike { target } => Some(target),
        Landing::Mend { who } => Some(who),
        Landing::Poison { target, .. } => Some(target),
        Landing::Cure { who } => Some(who),
        Landing::StatMod { who } => Some(who),
        Landing::Raise { target } => Some(target),
        Landing::Buff { who } => Some(who),
        Landing::Paralyze { target } => Some(target),
        _ => None,
    }
}

/// A spell that mends or changes a mobile (a heal, a cure, a stat change, a
/// behaviour buff): aimed at a mobile it lands on that mobile, whoever cast
/// it; aimed at none it lands on the caster, and on nobody without one.
pub proof fn lemma_a_mending_lands_on_its_mark(
    effect: SpellEffect,
    self_cast: bool,
    caster: Option<u32>,
    caster_at: Point,
    aim: SpellAim,
    magery: u16,
)
    requires
        effect == SpellEffect::Heal || effect == SpellEffect::Cure || effect == SpellEffect::StatMod
            || effect == SpellEffect::BehaviourBuff,
    ensures
        aim.target is Some ==> landed_on(spec_landing(effect, self_cast, caster, caster_at, aim, magery))
            == aim.target,
        aim.target is None ==> landed_on(spec_landing(effect, self_cast, caster, caster_at, aim, magery))
            == caster,
        spec_landing(effect, self_cast, caster, caster_at, aim, magery) != Landing::Nothing <==> (aim.target is Some
            || caster is Some),
{
}

/// A spell that harms or holds a mobile (a blow, a poison, a paralysis, a
/// raising): it lands on the aimed mobile and never on the caster in its
/// place; aimed at nobody it does nothing. A poison's level is a third of the
/// caster's Magery in hundreds, at most two.
pub proof fn lemma_a_blow_lands_on_its_aim(
    effect: SpellEffect,
    self_cast: bool,
    caster: Option<u32>,
    caster_at: Point,
    aim: SpellAim,
    magery: u16,
)
    requires
        effect == SpellEffect::Damage || effect == SpellEffect::Poison || effect == SpellEffect::Paralyze
            || effect == SpellEffect::Resurrect,
    ensures
        landed_on(spec_landing(effect, self_cast, caster, caster_at, aim, magery)) == aim.target,
        aim.target is None ==> spec_landing(effect, self_cast, caster, caster_at, aim, magery) == Landing::Nothing,
        effect == SpellEffect::Poison && aim.target is Some ==> (spec_landing(
            effect,
            self_cast,
            caster,
            caster_at,
            aim,
            magery,
        ) matches Landing::Poison { level, .. } && level <= 2 && (magery < 300 ==> level == 0) && (300
            <= magery < 600 ==> level == 1) && (magery >= 600 ==> level == 2)),
{
}

/// An area spell is centred on the caster for a self-cast and on the aimed
/// spot otherwise; an area cure, a teleport and a field go to the aimed spot.
pub proof fn lemma_an_area_spell_is_centred(
    effect: SpellEffect,
    self_cast: bool,
    caster: Option<u32>,
    caster_at: Point,
    aim: SpellAim,
    magery: u16,
)
    ensures
        effect == SpellEffect::AreaDamage ==> spec_landing(effect, self_cast, caster, caster_at, aim, magery)
            == (Landing::Blast { centre: if self_cast { caster_at } else { aim.location } }),
        effect == SpellEffect::AreaCure ==> spec_landing(effect, self_cast, caster, caster_at, aim, magery)
            == (Landing::CureArea { centre: aim.location }),
        effect == SpellEffect::Teleport ==> spec_landing(effect, self_cast, caster, caster_at, aim, magery)
            == (Landing::Teleport { to: aim.location }),
        effect == SpellEffect::Field ==> spec_landing(effect, self_cast, caster, caster_at, aim, magery)
            == (Landing::Field { at: aim.location }),
{
}

/// A spell is turned back exactly when it is offensive, aimed at a mobile,
/// the aimed mobile spent a reflect, and the caster can be aimed at; a turned
/// spell is aimed at its caster where the caster stands, and any other keeps
/// its aim.
pub proof fn lemma_reflect_decides_the_aim(
    effect: SpellEffect,
    caster: Option<u32>,
    caster_at: Point,
    target: Option<u32>,
    location: Point,
    reflect_spent: bool,
)
    ensures
        ({
            let aim = spec_aim_spell(effect, caster, caster_at, target, location, reflect_spent);
            &&& aim.reflected == (spec_offensive(effect) && target is Some && reflect_spent && caster is Some)
            &&& aim.reflected ==> aim.target == caster && aim.location == caster_at
            &&& !aim.reflected ==> aim.target == target && aim.location == location
        }),
        spec_offensive(effect) == (effect == SpellEffect::Damage || effect == SpellEffect::Poison || effect
            == SpellEffect::Paralyze),
{
}

/// The travel spells carry the object aimed at (the rune, the book) as it
/// is, and a spell not yet built lands nowhere.
pub proof fn lemma_travel_carries_its_aim(
    self_cast: bool,
    caster: Option<u32>,
    caster_at: Point,
    aim: SpellAim,
    magery: u16,
)
    ensures
        spec_landing(SpellEffect::Mark, self_cast, caster, caster_at, aim, magery) == (Landing::Mark {
            rune: aim.target,
        }),
        spec_landing(SpellEffect::Recall, self_cast, caster, caster_at, aim, magery) == (Landing::Recall {
            from: aim.target,
        }),
        spec_landing(SpellEffect::GateTravel, self_cast, caster, caster_at, aim, magery) == (Landing::Gate {
            from: aim.target,
        }),
        spec_landing(SpellEffect::Unimplemented, self_cast, caster, caster_at, aim, magery) == Landing::Nothing,
{
}

/// A reflected spell lands on its caster: whatever an offensive spell does
/// to a mobile, once a spent reflect turns it, it does to the one who cast it.
pub proof fn lemma_reflect_turns_the_blow(
    effect: SpellEffect,
    self_cast: bool,
    caster: u32,
    caster_at: Point,
    target: u32,
    location: Point,
    magery: u16,
)
    requires
        spec_offensive(effect),
    ensures
        ({
            let aim = spec_aim_spell(effect, Some(caster), caster_at, Some(target), location, true);
            &&& aim.reflected
            &&& match spec_landing(effect, self_cast, Some(caster), caster_at, aim, magery) {
                Landing::Strike { target: t } => t == caster,
                Landing::Poison { target: t, .. } => t == caster,
                Landing::Paralyze { target: t } => t == caster,
                _ => false,
            }
        }),
{
}

/// Without a spent reflect, or for a spell that is not offensive, the aim
/// stands as it was.
pub proof fn lemma_unreflected_aim_stands(
    effect: SpellEffect,
    caster: Option<u32>,
    caster_at: Point,
    target: Option<u32>,
    location: Point,
    reflect_spent: bool,
)
    requires
        !reflect_spent || !spec_offensive(effect),
    ensures
        spec_aim_spell(effect, caster, caster_at, target, location, reflect_spent) == (SpellAim {
            target,
            location,
            reflected: false,
        }),
{
}

} // verus!
