//! The behaviour vocabulary and the discrete half of behaviour selection:
//! the weighted menu a mood offers when the creature picks what to do next,
//! and which animation frame a way of moving shows. The app evaluates the
//! weights against the creature's needs, rolls the dice and steers the body.

use vstd::prelude::*;
use crate::mood::Mood;
use crate::animation::Pose;

verus! {

/// What the creature is up to.
#[derive(Debug, Clone, Copy, PartialEq, Eq, Structural)]
pub enum Behavior {
    Idle,
    Wander,
    FollowCursor,
    FleeCursor,
    /// Flying around for fun.
    Play,
    /// Walk to a monitor edge and look toward another screen.
    Peek,
    /// Cross over to a different monitor (walking or flying).
    Travel,
    /// Fly up and sit on top of the active window, watching you work.
    Perch,
    /// Rush over to a fresh notification to see what it's about.
    Investigate,
    /// Dangling from the user's cursor.
    Held,
    /// Ballistic after a throw — no control until landing.
    Tumble,
    Sleep,
}

/// How the body moves this frame.
#[derive(Debug, Clone, Copy, PartialEq, Eq, Structural)]
pub enum Locomotion {
    Idle,
    Walk,
    Run,
    Fly,
    Sleep,
    Held,
    Tumble,
}

/// A menu weight in tenths: `base + per_boredom * boredom + per_fatigue *
/// fatigue`, where boredom is one minus the fun need and fatigue one minus
/// the energy need.
#[derive(Debug, Clone, Copy, PartialEq, Eq, Structural)]
pub struct Weight {
    pub base: u32,
    pub per_boredom: u32,
    pub per_fatigue: u32,
}

pub open spec fn fixed(base: u32) -> Weight {
    Weight { base, per_boredom: 0, per_fatigue: 0 }
}

pub open spec fn entry(b: Behavior, base: u32) -> (Behavior, Weight) {
    (b, fixed(base))
}

pub open spec fn when(c: bool, e: (Behavior, Weight)) -> Seq<(Behavior, Weight)> {
    if c {
        seq![e]
    } else {
        Seq::empty()
    }
}

/// The menu each mood offers, before accessibility adjustments.
pub open spec fn mood_menu(mood: Mood, multi: bool, can_perch: bool) -> Seq<(Behavior, Weight)> {
    match mood {
        Mood::Energetic => seq![
            (Behavior::Play, Weight { base: 40, per_boredom: 30, per_fatigue: 0 }),
            entry(Behavior::Wander, 25),
        ] + when(multi, entry(Behavior::Travel, 20)) + when(can_perch, entry(Behavior::Perch, 18))
            + seq![entry(Behavior::Peek, 10), entry(Behavior::Idle, 5)],
        Mood::Happy => seq![
            entry(Behavior::Wander, 30),
            (Behavior::Play, Weight { base: 20, per_boredom: 20, per_fatigue: 0 }),
        ] + when(can_perch, entry(Behavior::Perch, 20)) + when(multi, entry(Behavior::Travel, 12))
            + seq![entry(Behavior::Peek, 10), entry(Behavior::Idle, 15)],
        Mood::Neutral => seq![entry(Behavior::Wander, 25), entry(Behavior::Idle, 25)] + when(
            can_perch,
            entry(Behavior::Perch, 12),
        ) + when(multi, entry(Behavior::Travel, 8)) + seq![
            entry(Behavior::Peek, 10),
            (Behavior::Play, Weight { base: 0, per_boredom: 15, per_fatigue: 0 }),
        ],
        Mood::Sad | Mood::Crying => seq![entry(Behavior::Idle, 30), entry(Behavior::Wander, 10)],
        Mood::Sleepy => seq![entry(Behavior::Idle, 30), entry(Behavior::Wander, 7)],
        Mood::Angry => seq![entry(Behavior::Wander, 30)] + when(multi, entry(Behavior::Travel, 20))
            + seq![entry(Behavior::Idle, 10)],
    }
}

/// With reduced motion, flying behaviours become a walk.
pub open spec fn calm(e: (Behavior, Weight), reduced_motion: bool) -> (Behavior, Weight) {
    if reduced_motion && (e.0 == Behavior::Play || e.0 == Behavior::Perch) {
        (Behavior::Wander, e.1)
    } else {
        e
    }
}

/// The full menu: the mood's offer, a nap when the user is away and the
/// creature is tired, and flying swapped for walking under reduced motion.
pub open spec fn menu_spec(mood: Mood, multi: bool, can_perch: bool, nap: bool, reduced_motion: bool) -> Seq<
    (Behavior, Weight),
> {
    (mood_menu(mood, multi, can_perch) + when(
        nap,
        (Behavior::Sleep, Weight { base: 15, per_boredom: 0, per_fatigue: 30 }),
    )).map_values(|e: (Behavior, Weight)| calm(e, reduced_motion))
}

fn push_fixed(m: &mut Vec<(Behavior, Weight)>, b: Behavior, base: u32)
    ensures
        final(m)@ == old(m)@.push(entry(b, base)),
{
    m.push((b, Weight { base, per_boredom: 0, per_fatigue: 0 }));
}

/// The weighted menu of behaviours to pick the next one from. `multi`: more
/// than one monitor; `can_perch`: there is an active window to sit on, the
/// user is working and motion is not reduced; `nap`: the user is away and
/// the creature is tired enough to sleep.
pub fn menu(mood: Mood, multi: bool, can_perch: bool, nap: bool, reduced_motion: bool) -> (m: Vec<
    (Behavior, Weight),
>)
    ensures
        m@ == menu_spec(mood, multi, can_perch, nap, reduced_motion),
{
    let mut m: Vec<(Behavior, Weight)> = Vec::new();
    match mood {
        Mood::Energetic => {
            m.push((Behavior::Play, Weight { base: 40, per_boredom: 30, per_fatigue: 0 }));
            push_fixed(&mut m, Behavior::Wander, 25);
            if multi {
                push_fixed(&mut m, Behavior::Travel, 20);
            }
            if can_perch {
                push_fixed(&mut m, Behavior::Perch, 18);
            }
            push_fixed(&mut m, Behavior::Peek, 10);
            push_fixed(&mut m, Behavior::Idle, 5);
        },
        Mood::Happy => {
            push_fixed(&mut m, Behavior::Wander, 30);
            m.push((Behavior::Play, Weight { base: 20, per_boredom: 20, per_fatigue: 0 }));
            if can_perch {
                push_fixed(&mut m, Behavior::Perch, 20);
            }
            if multi {
                push_fixed(&mut m, Behavior::Travel, 12);
            }
            push_fixed(&mut m, Behavior::Peek, 10);
            push_fixed(&mut m, Behavior::Idle, 15);
        },
        Mood::Neutral => {
            push_fixed(&mut m, Behavior::Wander, 25);
            push_fixed(&mut m, Behavior::Idle, 25);
            if can_perch {
                push_fixed(&mut m, Behavior::Perch, 12);
            }
            if multi {
                push_fixed(&mut m, Behavior::Travel, 8);
            }
            push_fixed(&mut m, Behavior::Peek, 10);
            m.push((Behavior::Play, Weight { base: 0, per_boredom: 15, per_fatigue: 0 }));
        },
        Mood::Sad | Mood::Crying => {
            push_fixed(&mut m, Behavior::Idle, 30);
            push_fixed(&mut m, Behavior::Wander, 10);
        },
        Mood::Sleepy => {
            push_fixed(&mut m, Behavior::Idle, 30);
            push_fixed(&mut m, Behavior::Wander, 7);
        },
        Mood::Angry => {
            push_fixed(&mut m, Behavior::Wander, 30);
            if multi {
                push_fixed(&mut m, Behavior::Travel, 20);
            }
            push_fixed(&mut m, Behavior::Idle, 10);
        },
    }
    assert(m@ =~= mood_menu(mood, multi, can_perch));
    if nap {
        m.push((Behavior::Sleep, Weight { base: 15, per_boredom: 0, per_fatigue: 30 }));
    }
    let ghost offer = m@;
    assert(offer =~= mood_menu(mood, multi, can_perch) + when(
        nap,
        (Behavior::Sleep, Weight { base: 15, per_boredom: 0, per_fatigue: 30 }),
    ));
    if reduced_motion {
        let mut i: usize = 0;
        while i < m.len()
            invariant
                i <= m.len(),
                m.len() == offer.len(),
                reduced_motion,
                forall|k: int| 0 <= k < i ==> m@[k] == calm(#[trigger] offer[k], reduced_motion),
                forall|k: int| i <= k < m.len() ==> m@[k] == offer[k],
            decreases m.len() - i,
        {
            let (b, w) = m[i];
            if b == Behavior::Play || b == Behavior::Perch {
                m.set(i, (Behavior::Wander, w));
            }
            i += 1;
        }
    }
    assert(m@ =~= offer.map_values(|e: (Behavior, Weight)| calm(e, reduced_motion)));
    m
}

// ----------------------------------------------------------------------------
// Laws of the menu
// ----------------------------------------------------------------------------

pub open spec fn offers(m: Seq<(Behavior, Weight)>, b: Behavior) -> bool {
    exists|k: int| 0 <= k < m.len() && (#[trigger] m[k]).0 == b
}

/// Every menu offers at least two behaviours, one of them idling.
pub proof fn lemma_menu_nonempty(mood: Mood, multi: bool, can_perch: bool, nap: bool, reduced_motion: bool)
    ensures
        menu_spec(mood, multi, can_perch, nap, reduced_motion).len() >= 2,
        offers(menu_spec(mood, multi, can_perch, nap, reduced_motion), Behavior::Idle),
{
    let m = menu_spec(mood, multi, can_perch, nap, reduced_motion);
    let o = mood_menu(mood, multi, can_perch) + when(
        nap,
        (Behavior::Sleep, Weight { base: 15, per_boredom: 0, per_fatigue: 30 }),
    );
    let mm = mood_menu(mood, multi, can_perch);
    assert(m.len() == o.len());
    let k: int = choose|k: int| 0 <= k < mm.len() && (#[trigger] mm[k]).0 == Behavior::Idle;
    assert(0 <= k < mm.len() && mm[k].0 == Behavior::Idle) by {
        match mood {
            Mood::Energetic => {
                let j = mm.len() - 1;
                assert(mm[j].0 == Behavior::Idle);
            },
            Mood::Happy => {
                let j = mm.len() - 1;
                assert(mm[j].0 == Behavior::Idle);
            },
            Mood::Neutral => {
                assert(mm[1].0 == Behavior::Idle);
            },
            Mood::Angry => {
                let j = mm.len() - 1;
                assert(mm[j].0 == Behavior::Idle);
            },
            _ => {
                assert(mm[0].0 == Behavior::Idle);
            },
        }
    }
    assert(o[k] == mm[k]);
    assert(m[k] == calm(o[k], reduced_motion));
}

/// What a menu offers depends on the circumstances: reduced motion never
/// flies or perches, travel needs a second monitor, perching needs a
/// window to sit on, and sleep is only offered as a nap.
pub proof fn lemma_menu_offers(mood: Mood, multi: bool, can_perch: bool, nap: bool, reduced_motion: bool)
    ensures
        reduced_motion ==> !offers(menu_spec(mood, multi, can_perch, nap, reduced_motion), Behavior::Play)
            && !offers(menu_spec(mood, multi, can_perch, nap, reduced_motion), Behavior::Perch),
        offers(menu_spec(mood, multi, can_perch, nap, reduced_motion), Behavior::Travel) ==> multi,
        offers(menu_spec(mood, multi, can_perch, nap, reduced_motion), Behavior::Perch) ==> can_perch,
        offers(menu_spec(mood, multi, can_perch, nap, reduced_motion), Behavior::Sleep) == nap,
        !offers(menu_spec(mood, multi, can_perch, nap, reduced_motion), Behavior::FollowCursor),
        !offers(menu_spec(mood, multi, can_perch, nap, reduced_motion), Behavior::Investigate),
{
    let m = menu_spec(mood, multi, can_perch, nap, reduced_motion);
    let mm = mood_menu(mood, multi, can_perch);
    let sleep_entry = (Behavior::Sleep, Weight { base: 15, per_boredom: 0, per_fatigue: 30 });
    let o = mm + when(nap, sleep_entry);
    assert(m.len() == o.len());
    assert forall|k: int| 0 <= k < m.len() implies #[trigger] m[k] == calm(o[k], reduced_motion) by {}
    assert forall|k: int| 0 <= k < mm.len() implies {
        let b = (#[trigger] mm[k]).0;
        &&& b != Behavior::Sleep
        &&& b != Behavior::FollowCursor
        &&& b != Behavior::Investigate
        &&& (b == Behavior::Travel ==> multi)
        &&& (b == Behavior::Perch ==> can_perch)
    } by {
        match mood {
            Mood::Energetic => {},
            Mood::Happy => {},
            Mood::Neutral => {},
            Mood::Angry => {},
            _ => {},
        }
    }
    assert forall|k: int| 0 <= k < o.len() implies {
        let b = (#[trigger] o[k]).0;
        &&& b != Behavior::FollowCursor
        &&& b != Behavior::Investigate
        &&& (b == Behavior::Travel ==> multi)
        &&& (b == Behavior::Perch ==> can_perch)
        &&& (b == Behavior::Sleep ==> nap)
    } by {
        if k < mm.len() {
            assert(o[k] == mm[k]);
        } else {
            assert(o[k] == sleep_entry);
        }
    }
    if nap {
        let j = o.len() - 1;
        assert(o[j] == sleep_entry);
        assert(m[j].0 == Behavior::Sleep);
    }
}

/// The lively moods (happy, energetic, neutral) offer, without reduced
/// motion: perching exactly when there is a window to sit on, travel
/// exactly when there is a second monitor, and always play, peeking,
/// wandering and idling.
pub proof fn lemma_menu_lively(mood: Mood, multi: bool, can_perch: bool, nap: bool)
    requires
        mood == Mood::Happy || mood == Mood::Energetic || mood == Mood::Neutral,
    ensures
        offers(menu_spec(mood, multi, can_perch, nap, false), Behavior::Perch) == can_perch,
        offers(menu_spec(mood, multi, can_perch, nap, false), Behavior::Travel) == multi,
        offers(menu_spec(mood, multi, can_perch, nap, false), Behavior::Play),
        offers(menu_spec(mood, multi, can_perch, nap, false), Behavior::Peek),
        offers(menu_spec(mood, multi, can_perch, nap, false), Behavior::Wander),
        offers(menu_spec(mood, multi, can_perch, nap, false), Behavior::Idle),
{
    lemma_menu_offers(mood, multi, can_perch, nap, false);
    let m = menu_spec(mood, multi, can_perch, nap, false);
    let mm = mood_menu(mood, multi, can_perch);
    let o = mm + when(nap, (Behavior::Sleep, Weight { base: 15, per_boredom: 0, per_fatigue: 30 }));
    assert(m.len() == o.len());
    assert forall|k: int| 0 <= k < mm.len() implies #[trigger] m[k] == mm[k] by {
        assert(m[k] == calm(o[k], false));
        assert(o[k] == mm[k]);
    }
    let t: int = if multi { 1 } else { 0 };
    let c: int = if can_perch { 1 } else { 0 };
    match mood {
        Mood::Energetic => {
            assert(m[0].0 == Behavior::Play);
            assert(m[1].0 == Behavior::Wander);
            if multi {
                assert(m[2].0 == Behavior::Travel);
            }
            if can_perch {
                assert(m[2 + t].0 == Behavior::Perch);
            }
            assert(m[2 + t + c].0 == Behavior::Peek);
            assert(m[3 + t + c].0 == Behavior::Idle);
        },
        Mood::Happy => {
            assert(m[0].0 == Behavior::Wander);
            assert(m[1].0 == Behavior::Play);
            if can_perch {
                assert(m[2].0 == Behavior::Perch);
            }
            if multi {
                assert(m[2 + c].0 == Behavior::Travel);
            }
            assert(m[2 + t + c].0 == Behavior::Peek);
            assert(m[3 + t + c].0 == Behavior::Idle);
        },
        _ => {
            assert(m[0].0 == Behavior::Wander);
            assert(m[1].0 == Behavior::Idle);
            if can_perch {
                assert(m[2].0 == Behavior::Perch);
            }
            if multi {
                assert(m[2 + c].0 == Behavior::Travel);
            }
            assert(m[2 + t + c].0 == Behavior::Peek);
            assert(m[3 + t + c].0 == Behavior::Play);
        },
    }
}

/// The gloomy moods (sad, crying, sleepy) offer nothing but idling and
/// wandering, and a nap when one is due; idling weighs more than wandering.
pub proof fn lemma_menu_gloomy(mood: Mood, multi: bool, can_perch: bool, nap: bool, reduced_motion: bool)
    requires
        mood == Mood::Sad || mood == Mood::Crying || mood == Mood::Sleepy,
    ensures
        forall|k: int| 0 <= k < menu_spec(mood, multi, can_perch, nap, reduced_motion).len() ==> {
            let b = (#[trigger] menu_spec(mood, multi, can_perch, nap, reduced_motion)[k]).0;
            b == Behavior::Idle || b == Behavior::Wander || (nap && b == Behavior::Sleep)
        },
        menu_spec(mood, multi, can_perch, nap, reduced_motion)[0] == (Behavior::Idle, Weight { base: 30, per_boredom: 0, per_fatigue: 0 }),
        menu_spec(mood, multi, can_perch, nap, reduced_motion)[1].0 == Behavior::Wander,
        menu_spec(mood, multi, can_perch, nap, reduced_motion)[1].1.base < 30,
{
    let m = menu_spec(mood, multi, can_perch, nap, reduced_motion);
    let mm = mood_menu(mood, multi, can_perch);
    let o = mm + when(nap, (Behavior::Sleep, Weight { base: 15, per_boredom: 0, per_fatigue: 30 }));
    assert(m.len() == o.len());
    assert forall|k: int| 0 <= k < m.len() implies {
        let b = (#[trigger] m[k]).0;
        b == Behavior::Idle || b == Behavior::Wander || (nap && b == Behavior::Sleep)
    } by {
        assert(m[k] == calm(o[k], reduced_motion));
        if k < mm.len() {
            assert(o[k] == mm[k]);
        }
    }
    assert(m[0] == calm(o[0], reduced_motion));
    assert(m[1] == calm(o[1], reduced_motion));
}

/// Boredom only ever raises the weight of play, fatigue only that of a nap
/// (1.5 plus 3 per unit of fatigue); play grows with boredom in every mood
/// that offers it; and an energetic creature weighs play (4 plus 3 per unit
/// of boredom) above everything else on its menu.
pub proof fn lemma_menu_weights(mood: Mood, multi: bool, can_perch: bool, nap: bool)
    ensures
        forall|k: int| 0 <= k < menu_spec(mood, multi, can_perch, nap, false).len() ==> {
            let e = #[trigger] menu_spec(mood, multi, can_perch, nap, false)[k];
            &&& (e.1.per_boredom > 0 <==> e.0 == Behavior::Play)
            &&& (e.1.per_fatigue > 0 <==> e.0 == Behavior::Sleep)
            &&& (e.0 == Behavior::Sleep ==> e.1 == Weight { base: 15, per_boredom: 0, per_fatigue: 30 })
            &&& (mood == Mood::Energetic && e.0 != Behavior::Play && e.0 != Behavior::Sleep ==> e.1.base < 40)
            &&& (mood == Mood::Energetic && e.0 == Behavior::Play ==> e.1 == Weight { base: 40, per_boredom: 30, per_fatigue: 0 })
        },
{
    let m = menu_spec(mood, multi, can_perch, nap, false);
    let mm = mood_menu(mood, multi, can_perch);
    let se = (Behavior::Sleep, Weight { base: 15, per_boredom: 0, per_fatigue: 30 });
    let o = mm + when(nap, se);
    assert(m.len() == o.len());
    assert forall|k: int| 0 <= k < m.len() implies {
        let e = #[trigger] m[k];
        &&& (e.1.per_boredom > 0 <==> e.0 == Behavior::Play)
        &&& (e.1.per_fatigue > 0 <==> e.0 == Behavior::Sleep)
        &&& (e.0 == Behavior::Sleep ==> e.1 == Weight { base: 15, per_boredom: 0, per_fatigue: 30 })
        &&& (mood == Mood::Energetic && e.0 != Behavior::Play && e.0 != Behavior::Sleep ==> e.1.base < 40)
        &&& (mood == Mood::Energetic && e.0 == Behavior::Play ==> e.1 == Weight { base: 40, per_boredom: 30, per_fatigue: 0 })
    } by {
        assert(m[k] == calm(o[k], false));
        if k < mm.len() {
            assert(o[k] == mm[k]);
            match mood {
                Mood::Energetic => {},
                Mood::Happy => {},
                Mood::Neutral => {},
                Mood::Angry => {},
                _ => {},
            }
        } else {
            assert(o[k] == se);
        }
    }
}

/// What each offer weighs, in tenths, without reduced motion: energetic —
/// play 4 + 3·boredom, wander 2.5, travel 2, perch 1.8, peek 1, idle 0.5;
/// happy — wander 3, play 2 + 2·boredom, perch 2, travel 1.2, peek 1, idle
/// 1.5; neutral — wander 2.5, idle 2.5, perch 1.2, travel 0.8, peek 1, play
/// 1.5·boredom; sad or crying — idle 3, wander 1; sleepy — idle 3, wander
/// 0.7; angry — wander 3, travel 2, idle 1; a nap 1.5 + 3·fatigue.
pub proof fn lemma_menu_weight_table(mood: Mood, multi: bool, can_perch: bool, nap: bool)
    ensures
        forall|k: int| 0 <= k < menu_spec(mood, multi, can_perch, nap, false).len() ==> {
            let e = #[trigger] menu_spec(mood, multi, can_perch, nap, false)[k];
            let fixed_w = |b: u32| Weight { base: b, per_boredom: 0, per_fatigue: 0 };
            e.1 == match (mood, e.0) {
                (_, Behavior::Sleep) => Weight { base: 15, per_boredom: 0, per_fatigue: 30 },
                (Mood::Energetic, Behavior::Play) => Weight { base: 40, per_boredom: 30, per_fatigue: 0 },
                (Mood::Energetic, Behavior::Wander) => fixed_w(25),
                (Mood::Energetic, Behavior::Travel) => fixed_w(20),
                (Mood::Energetic, Behavior::Perch) => fixed_w(18),
                (Mood::Energetic, Behavior::Peek) => fixed_w(10),
                (Mood::Energetic, _) => fixed_w(5),
                (Mood::Happy, Behavior::Wander) => fixed_w(30),
                (Mood::Happy, Behavior::Play) => Weight { base: 20, per_boredom: 20, per_fatigue: 0 },
                (Mood::Happy, Behavior::Perch) => fixed_w(20),
                (Mood::Happy, Behavior::Travel) => fixed_w(12),
                (Mood::Happy, Behavior::Peek) => fixed_w(10),
                (Mood::Happy, _) => fixed_w(15),
                (Mood::Neutral, Behavior::Wander) => fixed_w(25),
                (Mood::Neutral, Behavior::Idle) => fixed_w(25),
                (Mood::Neutral, Behavior::Perch) => fixed_w(12),
                (Mood::Neutral, Behavior::Travel) => fixed_w(8),
                (Mood::Neutral, Behavior::Peek) => fixed_w(10),
                (Mood::Neutral, _) => Weight { base: 0, per_boredom: 15, per_fatigue: 0 },
                (Mood::Sleepy, Behavior::Idle) => fixed_w(30),
                (Mood::Sleepy, _) => fixed_w(7),
                (Mood::Angry, Behavior::Wander) => fixed_w(30),
                (Mood::Angry, Behavior::Travel) => fixed_w(20),
                (Mood::Angry, _) => fixed_w(10),
                (_, Behavior::Idle) => fixed_w(30),
                (_, _) => fixed_w(10),
            }
        },
{
    let m = menu_spec(mood, multi, can_perch, nap, false);
    let mm = mood_menu(mood, multi, can_perch);
    let se = (Behavior::Sleep, Weight { base: 15, per_boredom: 0, per_fatigue: 30 });
    let o = mm + when(nap, se);
    assert(m.len() == o.len());
    assert forall|k: int| 0 <= k < m.len() implies #[trigger] m[k] == o[k] by {
        assert(m[k] == calm(o[k], false));
    }
    assert forall|k: int| 0 <= k < mm.len() implies #[trigger] o[k] == mm[k] by {}
    if nap {
        assert(o[o.len() - 1] == se);
    }
}

// ----------------------------------------------------------------------------
// Animation frames
// ----------------------------------------------------------------------------

/// How fast a way of moving flips between its two frames, in tenths of
/// frames per second. `moving`: walking or running fast enough to step.
pub open spec fn spec_cycle_tenths(loco: Locomotion, moving: bool) -> u32 {
    match loco {
        Locomotion::Held => 40,
        Locomotion::Fly => 80,
        Locomotion::Run => if moving {
            110
        } else {
            16
        },
        Locomotion::Walk => if moving {
            70
        } else {
            16
        },
        _ => 16,
    }
}

pub fn cycle_tenths(loco: Locomotion, moving: bool) -> (r: u32)
    ensures
        r == spec_cycle_tenths(loco, moving),
{
    match loco {
        Locomotion::Held => 40,
        Locomotion::Fly => 80,
        Locomotion::Run => if moving {
            110
        } else {
            16
        },
        Locomotion::Walk => if moving {
            70
        } else {
            16
        },
        _ => 16,
    }
}

/// The frame shown for a way of moving at animation tick `tick` (the
/// animation clock times the cycle rate, rounded down).
pub open spec fn spec_pose_for(loco: Locomotion, moving: bool, tick: i32) -> Pose {
    let even = tick % 2 == 0;
    match loco {
        Locomotion::Sleep => Pose::Sleep,
        Locomotion::Tumble => Pose::Fly1,
        Locomotion::Held | Locomotion::Fly => if even {
            Pose::Fly0
        } else {
            Pose::Fly1
        },
        Locomotion::Walk | Locomotion::Run => if moving {
            if even {
                Pose::Walk0
            } else {
                Pose::Walk1
            }
        } else if even {
            Pose::Idle0
        } else {
            Pose::Idle1
        },
        Locomotion::Idle => if even {
            Pose::Idle0
        } else {
            Pose::Idle1
        },
    }
}

/// Frames: sleeping and tumbling show one fixed frame (asleep, wings out);
/// every other way of moving alternates between two frames on successive
/// ticks — flapping when carried or flying, stepping when walking or running
/// fast enough, breathing otherwise. Carried and flying creatures flap at 4
/// and 8 frames per second, walkers step at 7 and runners at 11, and
/// breathing goes at 1.6.
pub proof fn lemma_pose_cycle(loco: Locomotion, moving: bool, tick: i32)
    requires
        tick < i32::MAX,
    ensures
        loco == Locomotion::Sleep ==> spec_pose_for(loco, moving, tick) == Pose::Sleep,
        loco == Locomotion::Tumble ==> spec_pose_for(loco, moving, tick) == Pose::Fly1,
        loco != Locomotion::Sleep && loco != Locomotion::Tumble ==> spec_pose_for(loco, moving, tick) != spec_pose_for(
            loco,
            moving,
            (tick + 1) as i32,
        ),
        (loco == Locomotion::Fly || loco == Locomotion::Held) ==> (spec_pose_for(loco, moving, tick) == Pose::Fly0
            || spec_pose_for(loco, moving, tick) == Pose::Fly1),
        ((loco == Locomotion::Walk || loco == Locomotion::Run) && moving) ==> (spec_pose_for(loco, moving, tick)
            == Pose::Walk0 || spec_pose_for(loco, moving, tick) == Pose::Walk1),
        (loco == Locomotion::Idle || ((loco == Locomotion::Walk || loco == Locomotion::Run) && !moving)) ==> (
        spec_pose_for(loco, moving, tick) == Pose::Idle0 || spec_pose_for(loco, moving, tick) == Pose::Idle1),
        spec_pose_for(loco, moving, 0) != Pose::Walk1 && spec_pose_for(loco, moving, 0) != Pose::Idle1,
        spec_cycle_tenths(Locomotion::Held, moving) == 40,
        spec_cycle_tenths(Locomotion::Fly, moving) == 80,
        spec_cycle_tenths(Locomotion::Walk, true) == 70,
        spec_cycle_tenths(Locomotion::Run, true) == 110,
        spec_cycle_tenths(Locomotion::Idle, moving) == 16,
        spec_cycle_tenths(Locomotion::Walk, false) == 16,
        spec_cycle_tenths(Locomotion::Run, false) == 16,
        spec_cycle_tenths(Locomotion::Sleep, moving) == 16,
        spec_cycle_tenths(Locomotion::Tumble, moving) == 16,
{
    assert((tick % 2 == 0) != ((tick + 1) % 2 == 0));
}

pub fn pose_for(loco: Locomotion, moving: bool, tick: i32) -> (p: Pose)
    ensures
        p == spec_pose_for(loco, moving, tick),
{
    let even = tick % 2 == 0;
    match loco {
        Locomotion::Sleep => Pose::Sleep,
        Locomotion::Tumble => Pose::Fly1,
        Locomotion::Held | Locomotion::Fly => if even {
            Pose::Fly0
        } else {
            Pose::Fly1
        },
        Locomotion::Walk | Locomotion::Run => if moving {
            if even {
                Pose::Walk0
            } else {
                Pose::Walk1
            }
        } else if even {
            Pose::Idle0
        } else {
            Pose::Idle1
        },
        Locomotion::Idle => if even {
            Pose::Idle0
        } else {
            Pose::Idle1
        },
    }
}

// ----------------------------------------------------------------------------
// Reflexes: what overrides the current plan this frame
// ----------------------------------------------------------------------------

/// A change to the behaviour timer, in tenths of a second. Applied in order.
#[derive(Debug, Clone, Copy, PartialEq, Eq, Structural)]
pub enum TimerOp {
    /// Set it.
    To(u32),
    /// Set it to a random value in `[lo, hi)`.
    Random(u32, u32),
    /// Lower it to at most this.
    AtMost(u32),
    /// Raise it to at least this.
    AtLeast(u32),
}

/// What the creature senses this frame, read against its thresholds.
#[derive(Debug, Clone, Copy)]
pub struct Cues {
    /// Pinched by the cursor.
    pub held: bool,
    /// Thrown and not yet landed.
    pub tumbling: bool,
    /// A reminder is being delivered.
    pub summon: bool,
    /// The cursor position is known.
    pub cursor_known: bool,
    /// A fresh notification is on screen.
    pub noti: bool,
    /// The mood is angry.
    pub angry: bool,
    /// Energy is nearly gone, or low while the user is away.
    pub exhausted: bool,
    /// The user is back and energy has recovered.
    pub refreshed: bool,
    /// The cursor is close (and known).
    pub cursor_close: bool,
    /// The cursor zoomed past nearby, cursor games are on and their
    /// cooldown has passed.
    pub chase_invite: bool,
    /// Run away from the cursor instead of toward it.
    pub shy: bool,
    /// The cursor is far away (and known).
    pub cursor_gone: bool,
    /// In the air without having been thrown, motion not reduced.
    pub drifting: bool,
    /// Standing on something.
    pub on_ground: bool,
    /// A fresh coin for the flutter-off decision, used only when this fall
    /// has none yet.
    pub coin: bool,
}

/// The reflexes' verdict.
pub struct Reaction {
    pub behavior: Behavior,
    pub timer: Vec<TimerOp>,
    /// `Some` when a physical state takes over this frame: move this way and
    /// make no further plans.
    pub gait: Option<Locomotion>,
    /// Aim just below the notification.
    pub investigate: bool,
    /// Restart the cursor-game cooldown (a random 20 to 45 seconds).
    pub chase_cooldown: bool,
    /// Aim at a random point in the air.
    pub take_off: bool,
    /// The flutter-off decision for the current fall, if made.
    pub fall_flutter: Option<bool>,
}

/// The reflexes' verdict, as values.
pub struct Verdict {
    pub behavior: Behavior,
    pub timer: Seq<TimerOp>,
    pub gait: Option<Locomotion>,
    pub investigate: bool,
    pub chase_cooldown: bool,
    pub take_off: bool,
    pub fall_flutter: Option<bool>,
}

pub open spec fn can_be_distracted(b: Behavior) -> bool {
    b == Behavior::Idle || b == Behavior::Wander || b == Behavior::Peek || b == Behavior::Play
}

pub open spec fn can_flutter_off(b: Behavior) -> bool {
    b == Behavior::Idle || b == Behavior::Wander || b == Behavior::Peek || b == Behavior::Sleep
}

/// The reflexes in priority order: being held or thrown; shaking off a
/// landing; coming to deliver a reminder; rushing to a notification;
/// falling asleep when exhausted and waking when refreshed; fleeing the
/// cursor when angry or chasing it when invited; giving up on a cursor that
/// got away; and fluttering off when left in mid-air.
pub open spec fn reflex(b: Behavior, s: Cues, ff: Option<bool>) -> Verdict {
    if s.held {
        Verdict {
            behavior: Behavior::Held,
            timer: seq![TimerOp::To(3)],
            gait: Some(Locomotion::Held),
            investigate: false,
            chase_cooldown: false,
            take_off: false,
            fall_flutter: ff,
        }
    } else if s.tumbling {
        Verdict {
            behavior: Behavior::Tumble,
            timer: seq![TimerOp::To(3)],
            gait: Some(Locomotion::Tumble),
            investigate: false,
            chase_cooldown: false,
            take_off: false,
            fall_flutter: ff,
        }
    } else {
        let (b1, t1) = if b == Behavior::Tumble {
            (Behavior::Idle, seq![TimerOp::Random(4, 10)])
        } else if b == Behavior::Held {
            (Behavior::Idle, seq![TimerOp::To(2)])
        } else {
            (b, Seq::empty())
        };
        let (b2, t2) = if s.summon && s.cursor_known {
            (Behavior::FollowCursor, t1.push(TimerOp::To(5)))
        } else {
            (b1, t1)
        };
        let inv = s.noti && !s.summon && !s.angry && b2 != Behavior::Investigate && b2
            != Behavior::Sleep;
        let (b3, t3) = if inv {
            (Behavior::Investigate, t2.push(TimerOp::To(70)))
        } else if !s.noti && b2 == Behavior::Investigate {
            (b2, t2.push(TimerOp::AtMost(12)))
        } else {
            (b2, t2)
        };
        let b4 = if !s.summon && s.exhausted {
            Behavior::Sleep
        } else {
            b3
        };
        let t4 = if b4 == Behavior::Sleep && s.refreshed {
            t3.push(TimerOp::To(0))
        } else {
            t3
        };
        let (b5, t5, chase) = if s.summon {
            (b4, t4, false)
        } else if s.angry && s.cursor_close && b4 != Behavior::Sleep {
            (Behavior::FleeCursor, t4.push(TimerOp::AtLeast(4)), false)
        } else if s.chase_invite && !s.angry && can_be_distracted(b4) {
            (
                if s.shy {
                    Behavior::FleeCursor
                } else {
                    Behavior::FollowCursor
                },
                t4.push(TimerOp::Random(25, 55)),
                true,
            )
        } else {
            (b4, t4, false)
        };
        let t6 = if b5 == Behavior::FollowCursor && s.cursor_gone && !s.summon {
            t5.push(TimerOp::To(0))
        } else {
            t5
        };
        let eligible = s.drifting && can_flutter_off(b5);
        let ff1 = if eligible {
            Some(
                match ff {
                    Some(v) => v,
                    None => s.coin,
                },
            )
        } else {
            ff
        };
        let fly = eligible && ff1 == Some(true);
        let (b7, t7) = if fly {
            (Behavior::Play, t6.push(TimerOp::Random(30, 60)))
        } else {
            (b5, t6)
        };
        Verdict {
            behavior: b7,
            timer: t7,
            gait: None,
            investigate: inv,
            chase_cooldown: chase,
            take_off: fly,
            fall_flutter: if s.on_ground {
                None
            } else {
                ff1
            },
        }
    }
}

/// Run the reflexes for a creature currently doing `b` whose current fall
/// has flutter decision `fall_flutter`.
pub fn react(b: Behavior, s: Cues, fall_flutter: Option<bool>) -> (r: Reaction)
    ensures
        r.behavior == reflex(b, s, fall_flutter).behavior,
        r.timer@ == reflex(b, s, fall_flutter).timer,
        r.gait == reflex(b, s, fall_flutter).gait,
        r.investigate == reflex(b, s, fall_flutter).investigate,
        r.chase_cooldown == reflex(b, s, fall_flutter).chase_cooldown,
        r.take_off == reflex(b, s, fall_flutter).take_off,
        r.fall_flutter == reflex(b, s, fall_flutter).fall_flutter,
{
    let mut timer: Vec<TimerOp> = Vec::new();
    if s.held {
        timer.push(TimerOp::To(3));
        return Reaction {
            behavior: Behavior::Held,
            timer,
            gait: Some(Locomotion::Held),
            investigate: false,
            chase_cooldown: false,
            take_off: false,
            fall_flutter,
        };
    }
    if s.tumbling {
        timer.push(TimerOp::To(3));
        return Reaction {
            behavior: Behavior::Tumble,
            timer,
            gait: Some(Locomotion::Tumble),
            investigate: false,
            chase_cooldown: false,
            take_off: false,
            fall_flutter,
        };
    }
    let mut beh = b;
    if beh == Behavior::Tumble {
        beh = Behavior::Idle;
        timer.push(TimerOp::Random(4, 10));
    } else if beh == Behavior::Held {
        beh = Behavior::Idle;
        timer.push(TimerOp::To(2));
    }
    if s.summon && s.cursor_known {
        beh = Behavior::FollowCursor;
        timer.push(TimerOp::To(5));
    }
    let inv = s.noti && !s.summon && !s.angry && beh != Behavior::Investigate && beh
        != Behavior::Sleep;
    if inv {
        beh = Behavior::Investigate;
        timer.push(TimerOp::To(70));
    } else if !s.noti && beh == Behavior::Investigate {
        timer.push(TimerOp::AtMost(12));
    }
    if !s.summon && s.exhausted {
        beh = Behavior::Sleep;
    }
    if beh == Behavior::Sleep && s.refreshed {
        timer.push(TimerOp::To(0));
    }
    let mut chase = false;
    if s.summon {
    } else if s.angry && s.cursor_close && beh != Behavior::Sleep {
        beh = Behavior::FleeCursor;
        timer.push(TimerOp::AtLeast(4));
    } else if s.chase_invite && !s.angry && (beh == Behavior::Idle || beh == Behavior::Wander
        || beh == Behavior::Peek || beh == Behavior::Play) {
        beh = if s.shy {
            Behavior::FleeCursor
        } else {
            Behavior::FollowCursor
        };
        timer.push(TimerOp::Random(25, 55));
        chase = true;
    }
    if beh == Behavior::FollowCursor && s.cursor_gone && !s.summon {
        timer.push(TimerOp::To(0));
    }
    let eligible = s.drifting && (beh == Behavior::Idle || beh == Behavior::Wander || beh
        == Behavior::Peek || beh == Behavior::Sleep);
    let ff1 = if eligible {
        Some(
            match fall_flutter {
                Some(v) => v,
                None => s.coin,
            },
        )
    } else {
        fall_flutter
    };
    let fly = eligible && ff1 == Some(true);
    if fly {
        beh = Behavior::Play;
        timer.push(TimerOp::Random(30, 60));
    }
    Reaction {
        behavior: beh,
        timer,
        gait: None,
        investigate: inv,
        chase_cooldown: chase,
        take_off: fly,
        fall_flutter: if s.on_ground {
            None
        } else {
            ff1
        },
    }
}

/// Being held or thrown overrides everything; delivering a reminder
/// overrides every other reflex; an angry creature never rushes to a
/// notification; the flutter-off decision is made once per fall and
/// forgotten on landing.
pub proof fn lemma_reflex_priorities(b: Behavior, s: Cues, ff: Option<bool>)
    ensures
        s.held ==> reflex(b, s, ff).behavior == Behavior::Held && reflex(b, s, ff).gait == Some(
            Locomotion::Held,
        ),
        !s.held && s.tumbling ==> reflex(b, s, ff).behavior == Behavior::Tumble && reflex(
            b,
            s,
            ff,
        ).gait == Some(Locomotion::Tumble),
        !s.held && !s.tumbling && s.summon && s.cursor_known ==> reflex(b, s, ff).behavior
            == Behavior::FollowCursor,
        s.angry ==> !reflex(b, s, ff).investigate && !reflex(b, s, ff).chase_cooldown,
        reflex(b, s, ff).gait is None ==> !s.held && !s.tumbling,
        ff is Some && !s.on_ground ==> reflex(b, s, ff).fall_flutter == ff,
        !s.held && !s.tumbling && s.on_ground ==> reflex(b, s, ff).fall_flutter is None,
        reflex(b, s, ff).take_off ==> reflex(b, s, ff).behavior == Behavior::Play && s.drifting,
{
}

/// Sleep is earned, never random: a reaction only puts the creature to sleep
/// when it is exhausted (or already asleep). And an angry creature refuses
/// to follow the cursor unless it is delivering a reminder or already was.
pub proof fn lemma_reflex_temper(b: Behavior, s: Cues, ff: Option<bool>)
    ensures
        reflex(b, s, ff).behavior == Behavior::Sleep ==> b == Behavior::Sleep || s.exhausted,
        s.angry && !(s.summon && s.cursor_known) && b != Behavior::FollowCursor
            ==> reflex(b, s, ff).behavior != Behavior::FollowCursor,
{
}

/// A cursor that zooms past invites a chase: an untroubled creature (not
/// held, tumbling, summoned, angry, exhausted, nor rushing to a
/// notification) that is idling, wandering, peeking, playing or just
/// shaking off a landing or a carry, chases it — or runs from it when shy —
/// and the chase cooldown restarts with a random 2.5–5.5 s plan.
pub proof fn lemma_reflex_chase(b: Behavior, s: Cues, ff: Option<bool>)
    requires
        !s.held,
        !s.tumbling,
        !s.summon,
        !s.angry,
        !s.exhausted,
        !s.noti,
        s.chase_invite,
        b is Idle || b is Wander || b is Peek || b is Play || b is Tumble || b is Held,
    ensures
        reflex(b, s, ff).behavior == if s.shy {
            Behavior::FleeCursor
        } else {
            Behavior::FollowCursor
        },
        reflex(b, s, ff).chase_cooldown,
        reflex(b, s, ff).timer.contains(TimerOp::Random(25, 55)),
        reflex(b, s, ff).gait is None,
        !reflex(b, s, ff).take_off,
{
    let v = reflex(b, s, ff);
    let t1: Seq<TimerOp> = if b == Behavior::Tumble {
        seq![TimerOp::Random(4, 10)]
    } else if b == Behavior::Held {
        seq![TimerOp::To(2)]
    } else {
        Seq::empty()
    };
    let t5 = t1.push(TimerOp::Random(25, 55));
    assert(t5[t5.len() - 1] == TimerOp::Random(25, 55));
    if v.timer == t5 {
    } else {
        assert(v.timer == t5.push(TimerOp::To(0)));
        assert(v.timer[t5.len() - 1] == TimerOp::Random(25, 55));
    }
}

/// A fresh notification draws an untroubled creature over: unless it is
/// held, tumbling, delivering a reminder, angry, asleep or exhausted, it
/// investigates and aims at the popup for a while.
pub proof fn lemma_reflex_notification(b: Behavior, s: Cues, ff: Option<bool>)
    requires
        !s.held,
        !s.tumbling,
        !s.summon,
        !s.angry,
        !s.exhausted,
        s.noti,
        b != Behavior::Sleep,
        b != Behavior::Investigate,
    ensures
        reflex(b, s, ff).behavior == Behavior::Investigate,
        reflex(b, s, ff).investigate,
        reflex(b, s, ff).timer.contains(TimerOp::To(70)),
{
    let v = reflex(b, s, ff);
    assert(v.timer[v.timer.len() - 1] == TimerOp::To(70));
}

/// An angry creature that is not held, tumbling, summoned, asleep or
/// exhausted runs from a cursor that comes close.
pub proof fn lemma_reflex_flee(b: Behavior, s: Cues, ff: Option<bool>)
    requires
        !s.held,
        !s.tumbling,
        !s.summon,
        !s.exhausted,
        s.angry,
        s.cursor_close,
        b != Behavior::Sleep,
    ensures
        reflex(b, s, ff).behavior == Behavior::FleeCursor,
        !reflex(b, s, ff).chase_cooldown,
        reflex(b, s, ff).timer.contains(TimerOp::AtLeast(4)),
{
    let v = reflex(b, s, ff);
    assert(v.timer[v.timer.len() - 1] == TimerOp::AtLeast(4));
}

/// Held or thrown, the timer is set to 0.3 s and nothing else happens; just
/// landed from a throw the creature idles for a random 0.4–1 s, just put
/// down for 0.2 s (when nothing else calls).
pub proof fn lemma_reflex_timers(b: Behavior, s: Cues, ff: Option<bool>)
    ensures
        s.held || s.tumbling ==> reflex(b, s, ff).timer == seq![TimerOp::To(3)] && !reflex(b, s, ff).investigate
            && !reflex(b, s, ff).chase_cooldown && !reflex(b, s, ff).take_off && reflex(b, s, ff).fall_flutter == ff,
        !s.held && !s.tumbling && b == Behavior::Tumble ==> reflex(b, s, ff).timer.len() > 0 && reflex(b, s, ff).timer[0]
            == TimerOp::Random(4, 10),
        !s.held && !s.tumbling && b == Behavior::Held ==> reflex(b, s, ff).timer.len() > 0 && reflex(b, s, ff).timer[0]
            == TimerOp::To(2),
        !s.held && !s.tumbling && !s.summon && !s.noti && b == Behavior::Investigate ==> reflex(b, s, ff).timer.contains(
            TimerOp::AtMost(12),
        ),
{
    let v = reflex(b, s, ff);
    if !s.held && !s.tumbling && !s.summon && !s.noti && b == Behavior::Investigate {
        assert(v.timer[0] == TimerOp::AtMost(12));
    }
}

/// Left in mid-air (not thrown, motion not reduced) while idling,
/// wandering, peeking or asleep, with nothing else calling, the creature
/// decides once per fall — by the fall's earlier decision, else by the coin
/// — and flutters off to play when the decision says so; it never flutters
/// off on the ground.
pub proof fn lemma_reflex_flutter(b: Behavior, s: Cues, ff: Option<bool>)
    ensures
        !s.held && !s.tumbling && !s.summon && !s.noti && !s.exhausted && !s.cursor_close && !s.chase_invite
            && s.drifting && (b == Behavior::Idle || b == Behavior::Wander || b == Behavior::Peek || b
            == Behavior::Sleep) ==> ({
            let decided = match ff {
                Some(v) => v,
                None => s.coin,
            };
            &&& reflex(b, s, ff).take_off == decided
            &&& reflex(b, s, ff).behavior == if decided {
                Behavior::Play
            } else {
                b
            }
            &&& (!s.on_ground ==> reflex(b, s, ff).fall_flutter == Some(decided))
        }),
        !s.drifting ==> !reflex(b, s, ff).take_off,
{
}

/// Wandering and peeking: energetic and angry creatures run unless motion is
/// reduced; everyone else walks.
pub proof fn lemma_wander_gait(mood: Mood, reduced_motion: bool)
    ensures
        reduced_motion ==> spec_wander_gait(mood, reduced_motion) == Locomotion::Walk,
        !reduced_motion && (mood == Mood::Energetic || mood == Mood::Angry) ==> spec_wander_gait(mood, reduced_motion)
            == Locomotion::Run,
        !(mood == Mood::Energetic || mood == Mood::Angry) ==> spec_wander_gait(mood, reduced_motion) == Locomotion::Walk,
{
}

/// On the ground, a reaction's behaviour depends only on the circumstances
/// that call for it: without summons, notifications, exhaustion or cursor
/// events, an unheld, landed creature keeps doing what it was doing (after
/// shaking off a landing or a carry).
pub proof fn lemma_reflex_calm(b: Behavior, s: Cues, ff: Option<bool>)
    requires
        !s.held,
        !s.tumbling,
        !s.summon,
        !s.noti,
        !s.exhausted,
        !s.cursor_close,
        !s.chase_invite,
        !s.drifting,
    ensures
        reflex(b, s, ff).behavior == if b == Behavior::Tumble || b == Behavior::Held {
            Behavior::Idle
        } else {
            b
        },
{
}

/// The gait for wandering and peeking: energetic and angry creatures run
/// unless motion is reduced.
pub open spec fn spec_wander_gait(mood: Mood, reduced_motion: bool) -> Locomotion {
    if (mood == Mood::Energetic || mood == Mood::Angry) && !reduced_motion {
        Locomotion::Run
    } else {
        Locomotion::Walk
    }
}

pub fn wander_gait(mood: Mood, reduced_motion: bool) -> (l: Locomotion)
    ensures
        l == spec_wander_gait(mood, reduced_motion),
{
    if (mood == Mood::Energetic || mood == Mood::Angry) && !reduced_motion {
        Locomotion::Run
    } else {
        Locomotion::Walk
    }
}

} // verus!
