//! Gentle wellness nudges, decided. The app keeps the clocks (time since the
//! last message, water and chatter accumulators, the activity tracker) and
//! turns them into yes/no readings each frame; this module decides, from
//! those readings and the two once-per-stint warning flags, whether the pet
//! says something and what.
//!
//! It never nags: nothing is said until the global quiet gap since the last
//! message has passed; the eye and stretch warnings
//! fire at most once per stint; and only hydration is delivered strictly.

use vstd::prelude::*;

verus! {

/// How insistently a message is delivered.
#[derive(Debug, Clone, Copy, PartialEq, Eq, Structural)]
pub enum Urgency {
    /// Plain banner, shown for a while wherever the pet is.
    Passive,
    /// Brought to the cursor; given up quickly if the user stays busy.
    Gentle,
    /// Brought to the cursor and kept there until the user pauses.
    Strict,
}

/// What the pet says.
#[derive(Debug, Clone, Copy, PartialEq, Eq, Structural)]
pub enum Nudge {
    /// A word of praise for a finished work stint.
    Praise,
    /// Look away from the screen for a moment.
    EyeRest,
    /// Stand up and stretch.
    Stretch,
    /// Drink some water.
    Water,
    /// A bit of ambient chatter.
    Chatter,
}

impl Nudge {
    pub open spec fn spec_urgency(self) -> Urgency {
        match self {
            Nudge::EyeRest | Nudge::Stretch => Urgency::Gentle,
            Nudge::Water => Urgency::Strict,
            Nudge::Praise | Nudge::Chatter => Urgency::Passive,
        }
    }

    /// How this message is delivered.
    pub fn urgency(self) -> (u: Urgency)
        ensures
            u == self.spec_urgency(),
    {
        match self {
            Nudge::EyeRest | Nudge::Stretch => Urgency::Gentle,
            Nudge::Water => Urgency::Strict,
            Nudge::Praise | Nudge::Chatter => Urgency::Passive,
        }
    }
}

/// The once-per-stint warnings already given.
#[derive(Debug, Clone, Copy, PartialEq, Eq, Structural)]
pub struct Warned {
    pub eyes: bool,
    pub stretch: bool,
}

/// This frame's readings of the clocks.
#[derive(Debug, Clone, Copy)]
pub struct Readings {
    /// The user just stepped away, ending a work stint.
    pub break_started: bool,
    /// The stint that just ended lasted more than half the break interval.
    pub stint_earned_praise: bool,
    /// The quiet gap since the last message has passed.
    pub gap_elapsed: bool,
    /// Wellness reminders are switched on.
    pub enabled: bool,
    /// The stint has reached the eye-rest threshold.
    pub eyes_due: bool,
    /// The stint has reached the stretch threshold.
    pub stretch_due: bool,
    /// The water interval has passed and the user is active.
    pub water_due: bool,
    /// The chatter interval has passed.
    pub chatter_due: bool,
    /// The coin that decides whether due chatter is actually said.
    pub coin: bool,
}

/// The decision for one frame.
#[derive(Debug, Clone, Copy)]
pub struct Decision {
    pub warned: Warned,
    pub nudge: Option<Nudge>,
    /// Restart the water interval.
    pub reset_water: bool,
    /// Restart the chatter interval.
    pub reset_chatter: bool,
}

pub open spec fn decision(warned: Warned, nudge: Option<Nudge>, reset_water: bool, reset_chatter: bool) -> Decision {
    Decision { warned, nudge, reset_water, reset_chatter }
}

/// The rules, in priority order.
pub open spec fn next(w: Warned, r: Readings) -> Decision {
    let w1 = if r.break_started {
        Warned { eyes: false, stretch: false }
    } else {
        w
    };
    if !r.gap_elapsed {
        decision(w1, None, false, false)
    } else if r.break_started && r.stint_earned_praise {
        decision(w1, Some(Nudge::Praise), false, false)
    } else if r.enabled && !w1.eyes && r.eyes_due {
        decision(Warned { eyes: true, ..w1 }, Some(Nudge::EyeRest), false, false)
    } else if r.enabled && !w1.stretch && r.stretch_due {
        decision(Warned { stretch: true, ..w1 }, Some(Nudge::Stretch), false, false)
    } else if r.enabled && r.water_due {
        decision(w1, Some(Nudge::Water), true, false)
    } else if r.chatter_due {
        decision(w1, if r.coin { Some(Nudge::Chatter) } else { None }, false, true)
    } else {
        decision(w1, None, false, false)
    }
}

/// Decide this frame's message, if any. Whenever a message is returned the
/// quiet gap restarts.
pub fn decide(warned: Warned, r: Readings) -> (d: Decision)
    ensures
        d == next(warned, r),
{
    let w1 = if r.break_started {
        Warned { eyes: false, stretch: false }
    } else {
        warned
    };
    if !r.gap_elapsed {
        return Decision { warned: w1, nudge: None, reset_water: false, reset_chatter: false };
    }
    if r.break_started && r.stint_earned_praise {
        return Decision { warned: w1, nudge: Some(Nudge::Praise), reset_water: false, reset_chatter: false };
    }
    if r.enabled {
        if !w1.eyes && r.eyes_due {
            return Decision {
                warned: Warned { eyes: true, stretch: w1.stretch },
                nudge: Some(Nudge::EyeRest),
                reset_water: false,
                reset_chatter: false,
            };
        }
        if !w1.stretch && r.stretch_due {
            return Decision {
                warned: Warned { eyes: w1.eyes, stretch: true },
                nudge: Some(Nudge::Stretch),
                reset_water: false,
                reset_chatter: false,
            };
        }
        if r.water_due {
            return Decision { warned: w1, nudge: Some(Nudge::Water), reset_water: true, reset_chatter: false };
        }
    }
    if r.chatter_due {
        let nudge = if r.coin {
            Some(Nudge::Chatter)
        } else {
            None
        };
        return Decision { warned: w1, nudge, reset_water: false, reset_chatter: true };
    }
    Decision { warned: w1, nudge: None, reset_water: false, reset_chatter: false }
}

// ----------------------------------------------------------------------------
// Laws
// ----------------------------------------------------------------------------

/// Nothing at all is said before the quiet gap since the last message has
/// passed, and praise only closes a work stint.
pub proof fn lemma_quiet_gap(w: Warned, r: Readings)
    ensures
        next(w, r).nudge is Some ==> r.gap_elapsed,
        next(w, r).nudge == Some(Nudge::Praise) ==> r.break_started && r.stint_earned_praise,
{
}

/// A stint long enough to earn praise is praised when it ends, once the quiet
/// gap has passed; praise comes before any reminder.
pub proof fn lemma_praise_earned(w: Warned, r: Readings)
    requires
        r.gap_elapsed,
        r.break_started,
        r.stint_earned_praise,
    ensures
        next(w, r).nudge == Some(Nudge::Praise),
        !next(w, r).warned.eyes && !next(w, r).warned.stretch,
{
}

/// With the gap passed and no break, a due reminder that has not been given
/// this stint is given, in the order eyes, stretch, water; a break clears
/// both warnings whatever else happens.
pub proof fn lemma_reminders_due(w: Warned, r: Readings)
    ensures
        r.gap_elapsed && !r.break_started && r.enabled && !w.eyes && r.eyes_due ==> next(w, r).nudge
            == Some(Nudge::EyeRest),
        r.gap_elapsed && !r.break_started && r.enabled && !(!w.eyes && r.eyes_due) && !w.stretch
            && r.stretch_due ==> next(w, r).nudge == Some(Nudge::Stretch),
        r.gap_elapsed && !r.break_started && r.enabled && !(!w.eyes && r.eyes_due) && !(!w.stretch
            && r.stretch_due) && r.water_due ==> next(w, r).nudge == Some(Nudge::Water) && next(
            w,
            r,
        ).reset_water,
        next(w, r).reset_water ==> next(w, r).nudge == Some(Nudge::Water),
        r.break_started ==> !next(w, r).warned.eyes || next(w, r).nudge == Some(Nudge::EyeRest),
        r.break_started ==> !next(w, r).warned.stretch || next(w, r).nudge == Some(Nudge::Stretch),
{
}

/// With reminders switched off only praise and chatter are ever said.
pub proof fn lemma_disabled_quiet(w: Warned, r: Readings)
    requires
        !r.enabled,
    ensures
        next(w, r).nudge matches Some(n) ==> n == Nudge::Praise || n == Nudge::Chatter,
        !next(w, r).reset_water,
{
}

/// A warning, once given, is not given again until a break clears it; and a
/// flag is set exactly when its warning is given.
pub proof fn lemma_warn_once(w: Warned, r: Readings)
    ensures
        w.eyes && !r.break_started ==> next(w, r).nudge != Some(Nudge::EyeRest),
        w.stretch && !r.break_started ==> next(w, r).nudge != Some(Nudge::Stretch),
        next(w, r).nudge == Some(Nudge::EyeRest) ==> next(w, r).warned.eyes,
        next(w, r).nudge == Some(Nudge::Stretch) ==> next(w, r).warned.stretch,
        !r.break_started ==> (w.eyes ==> next(w, r).warned.eyes) && (w.stretch ==> next(
            w,
            r,
        ).warned.stretch),
{
}

/// Only hydration is delivered strictly.
pub proof fn lemma_strict_only_water(n: Nudge)
    ensures
        (n.spec_urgency() == Urgency::Strict) == (n == Nudge::Water),
{
}

/// How many eye-rest warnings a run of frames produces.
pub open spec fn eye_rests(w: Warned, rs: Seq<Readings>) -> nat
    decreases rs.len(),
{
    if rs.len() == 0 {
        0
    } else {
        let d = next(w, rs[0]);
        (if d.nudge == Some(Nudge::EyeRest) {
            1nat
        } else {
            0nat
        }) + eye_rests(d.warned, rs.drop_first())
    }
}

/// Over any run of frames without a break the eye-rest warning is given at
/// most once, and not at all if it was already given this stint.
pub proof fn lemma_eye_rest_once_per_stint(w: Warned, rs: Seq<Readings>)
    requires
        forall|k: int| 0 <= k < rs.len() ==> !(#[trigger] rs[k]).break_started,
    ensures
        eye_rests(w, rs) <= if w.eyes {
            0nat
        } else {
            1nat
        },
    decreases rs.len(),
{
    if rs.len() > 0 {
        let d = next(w, rs[0]);
        let rest = rs.drop_first();
        assert forall|k: int| 0 <= k < rest.len() implies !(#[trigger] rest[k]).break_started by {
            assert(rest[k] == rs[k + 1]);
        }
        lemma_eye_rest_once_per_stint(d.warned, rest);
    }
}

/// Eye and stretch reminders come gently, water strictly, praise and
/// chatter passively.
pub proof fn lemma_urgencies()
    ensures
        Nudge::EyeRest.spec_urgency() == Urgency::Gentle,
        Nudge::Stretch.spec_urgency() == Urgency::Gentle,
        Nudge::Water.spec_urgency() == Urgency::Strict,
        Nudge::Praise.spec_urgency() == Urgency::Passive,
        Nudge::Chatter.spec_urgency() == Urgency::Passive,
{
}

/// Chatter is only considered when its interval has passed and nothing more
/// important is due; it restarts the chatter interval whether or not the
/// coin lets it be said, and the coin decides.
pub proof fn lemma_chatter(w: Warned, r: Readings)
    ensures
        next(w, r).nudge == Some(Nudge::Chatter) ==> r.chatter_due && r.coin && r.gap_elapsed,
        next(w, r).reset_chatter ==> r.chatter_due && r.gap_elapsed,
        r.gap_elapsed && !r.break_started && !r.enabled && r.chatter_due ==> next(w, r).reset_chatter && next(
            w,
            r,
        ).nudge == if r.coin {
            Some(Nudge::Chatter)
        } else {
            None
        },
        !r.chatter_due ==> !next(w, r).reset_chatter,
{
}

} // verus!
