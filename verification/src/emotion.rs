//! The winner-take-all mood and its hysteresis. The app simulates the needs
//! (energy, social, fun, bond), anger and arousal as they decay and recover
//! over time and reads them against their thresholds; this module picks the
//! mood those readings call for, and decides when the visible mood actually
//! switches — stronger urges switch faster, anger almost at once.

use vstd::prelude::*;
use crate::mood::Mood;

verus! {

/// The needs read against their thresholds.
#[derive(Debug, Clone, Copy)]
pub struct Drives {
    /// Energy is nearly gone.
    pub exhausted: bool,
    /// Anger is high.
    pub furious: bool,
    /// Starved of company while attached to the user.
    pub lonely_and_attached: bool,
    /// Starved of company.
    pub lonely: bool,
    /// Aroused and with energy to spare.
    pub excited: bool,
    /// Socially fulfilled and rested.
    pub content: bool,
}

/// The mood the drives call for, by urgency: exhaustion, anger, loneliness
/// with attachment, loneliness, excitement, contentment, else neutral.
pub open spec fn spec_desired_mood(d: Drives) -> Mood {
    if d.exhausted {
        Mood::Sleepy
    } else if d.furious {
        Mood::Angry
    } else if d.lonely_and_attached {
        Mood::Crying
    } else if d.lonely {
        Mood::Sad
    } else if d.excited {
        Mood::Energetic
    } else if d.content {
        Mood::Happy
    } else {
        Mood::Neutral
    }
}

pub fn desired_mood(d: Drives) -> (m: Mood)
    ensures
        m == spec_desired_mood(d),
{
    if d.exhausted {
        Mood::Sleepy
    } else if d.furious {
        Mood::Angry
    } else if d.lonely_and_attached {
        Mood::Crying
    } else if d.lonely {
        Mood::Sad
    } else if d.excited {
        Mood::Energetic
    } else if d.content {
        Mood::Happy
    } else {
        Mood::Neutral
    }
}

/// How long, in tenths of a second, a new mood must persist before it shows.
pub open spec fn spec_inertia_tenths(m: Mood) -> u32 {
    match m {
        Mood::Angry => 6,
        Mood::Crying => 15,
        Mood::Sleepy => 25,
        _ => 40,
    }
}

pub fn inertia_tenths(m: Mood) -> (t: u32)
    ensures
        t == spec_inertia_tenths(m),
{
    match m {
        Mood::Angry => 6,
        Mood::Crying => 15,
        Mood::Sleepy => 25,
        _ => 40,
    }
}

/// The visible mood after one step, and whether the mood clock restarts.
/// `persisted`: the current mood has been held longer than the desired
/// mood's inertia.
pub open spec fn spec_settle(current: Mood, desired: Mood, persisted: bool) -> (Mood, bool) {
    if desired != current {
        if persisted {
            (desired, true)
        } else {
            (current, false)
        }
    } else {
        (current, true)
    }
}

pub fn settle(current: Mood, desired: Mood, persisted: bool) -> (r: (Mood, bool))
    ensures
        r == spec_settle(current, desired, persisted),
{
    if desired != current {
        if persisted {
            (desired, true)
        } else {
            (current, false)
        }
    } else {
        (current, true)
    }
}

/// The visible mood only ever becomes the desired one, and only once it has
/// persisted; anger is the quickest urge to show.
pub proof fn lemma_settle(current: Mood, desired: Mood, persisted: bool)
    ensures
        spec_settle(current, desired, persisted).0 == current || spec_settle(
            current,
            desired,
            persisted,
        ).0 == desired,
        spec_settle(current, desired, persisted).0 != current ==> persisted,
        forall|m: Mood| m != Mood::Angry ==> spec_inertia_tenths(Mood::Angry) < #[trigger] spec_inertia_tenths(m),
{
}

/// Exhaustion outranks everything, and anger everything else.
pub proof fn lemma_urgency_order(d: Drives)
    ensures
        d.exhausted ==> spec_desired_mood(d) == Mood::Sleepy,
        !d.exhausted && d.furious ==> spec_desired_mood(d) == Mood::Angry,
        spec_desired_mood(d) == Mood::Neutral ==> !d.exhausted && !d.furious && !d.lonely && !d.lonely_and_attached && !d.excited && !d.content,
{
}

/// Each mood is wanted exactly when its own drive is present and no more
/// urgent one is: sleepiness for exhaustion, then anger, crying for
/// loneliness with attachment, sadness for loneliness, energy for
/// excitement, happiness for contentment.
pub proof fn lemma_mood_drives(d: Drives)
    ensures
        (spec_desired_mood(d) == Mood::Sleepy) == d.exhausted,
        (spec_desired_mood(d) == Mood::Angry) == (!d.exhausted && d.furious),
        (spec_desired_mood(d) == Mood::Crying) == (!d.exhausted && !d.furious && d.lonely_and_attached),
        (spec_desired_mood(d) == Mood::Sad) == (!d.exhausted && !d.furious && !d.lonely_and_attached && d.lonely),
        (spec_desired_mood(d) == Mood::Energetic) == (!d.exhausted && !d.furious && !d.lonely_and_attached
            && !d.lonely && d.excited),
        (spec_desired_mood(d) == Mood::Happy) == (!d.exhausted && !d.furious && !d.lonely_and_attached
            && !d.lonely && !d.excited && d.content),
{
}

/// The visible mood switches to a different desired mood exactly when the
/// current one has persisted past the inertia, and the clock restarts then;
/// a mood that is already the desired one stays and its clock restarts; a
/// change that has not persisted long enough waits, clock running. Urges
/// switch faster the stronger they are: anger after 0.6 s, crying after
/// 1.5 s, sleepiness after 2.5 s, everything else after 4 s.
pub proof fn lemma_hysteresis(current: Mood, desired: Mood, persisted: bool)
    ensures
        desired == current ==> spec_settle(current, desired, persisted) == (current, true),
        desired != current && persisted ==> spec_settle(current, desired, persisted) == (desired, true),
        desired != current && !persisted ==> spec_settle(current, desired, persisted) == (current, false),
        spec_inertia_tenths(Mood::Angry) == 6,
        spec_inertia_tenths(Mood::Crying) == 15,
        spec_inertia_tenths(Mood::Sleepy) == 25,
        spec_inertia_tenths(Mood::Happy) == 40 && spec_inertia_tenths(Mood::Energetic) == 40
            && spec_inertia_tenths(Mood::Neutral) == 40 && spec_inertia_tenths(Mood::Sad) == 40,
{
}

} // verus!
