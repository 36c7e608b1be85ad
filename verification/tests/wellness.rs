use companion::wellness::{decide, Nudge, Readings, Urgency, Warned};

fn quiet() -> Readings {
    Readings {
        break_started: false,
        stint_earned_praise: false,
        gap_elapsed: true,
        enabled: true,
        eyes_due: false,
        stretch_due: false,
        water_due: false,
        chatter_due: false,
        coin: false,
    }
}

const FRESH: Warned = Warned { eyes: false, stretch: false };

#[test]
fn nothing_due_says_nothing() {
    let d = decide(FRESH, quiet());
    assert_eq!(d.nudge, None);
    assert!(!d.reset_water && !d.reset_chatter);
}

#[test]
fn eye_rest_once_per_stint() {
    let r = Readings { eyes_due: true, ..quiet() };
    let d = decide(FRESH, r);
    assert_eq!(d.nudge, Some(Nudge::EyeRest));
    assert_eq!(Nudge::EyeRest.urgency(), Urgency::Gentle);
    assert!(d.warned.eyes);
    let again = decide(d.warned, r);
    assert_eq!(again.nudge, None);
    // a break clears the warning (and, with a short stint, says nothing)
    let brk = decide(again.warned, Readings { break_started: true, gap_elapsed: false, ..r });
    assert_eq!(brk.nudge, None);
    assert_eq!(brk.warned, FRESH);
    assert_eq!(decide(brk.warned, r).nudge, Some(Nudge::EyeRest));
}

#[test]
fn eye_rest_before_stretch_before_water() {
    let all = Readings { eyes_due: true, stretch_due: true, water_due: true, ..quiet() };
    let a = decide(FRESH, all);
    assert_eq!(a.nudge, Some(Nudge::EyeRest));
    let b = decide(a.warned, all);
    assert_eq!(b.nudge, Some(Nudge::Stretch));
    assert_eq!(Nudge::Stretch.urgency(), Urgency::Gentle);
    let c = decide(b.warned, all);
    assert_eq!(c.nudge, Some(Nudge::Water));
    assert!(c.reset_water);
}

#[test]
fn water_is_strict() {
    let d = decide(FRESH, Readings { water_due: true, ..quiet() });
    assert_eq!(d.nudge, Some(Nudge::Water));
    assert_eq!(Nudge::Water.urgency(), Urgency::Strict);
    assert!(d.reset_water);
}

#[test]
fn quiet_gap_holds_everything_even_praise() {
    let busy = Readings { gap_elapsed: false, eyes_due: true, water_due: true, chatter_due: true, coin: true, ..quiet() };
    assert_eq!(decide(FRESH, busy).nudge, None);
    let early_praise = Readings { break_started: true, stint_earned_praise: true, ..busy };
    let held = decide(Warned { eyes: true, stretch: true }, early_praise);
    assert_eq!(held.nudge, None);
    // the break still clears the warnings
    assert_eq!(held.warned, FRESH);
    let praise = Readings { gap_elapsed: true, ..early_praise };
    let d = decide(Warned { eyes: true, stretch: true }, praise);
    assert_eq!(d.nudge, Some(Nudge::Praise));
    assert_eq!(Nudge::Praise.urgency(), Urgency::Passive);
    assert_eq!(d.warned, FRESH);
}

#[test]
fn disabled_reminders_only_chatter() {
    let r = Readings { enabled: false, eyes_due: true, stretch_due: true, water_due: true, ..quiet() };
    assert_eq!(decide(FRESH, r).nudge, None);
    let chat = Readings { chatter_due: true, coin: true, ..r };
    let d = decide(FRESH, chat);
    assert_eq!(d.nudge, Some(Nudge::Chatter));
    assert!(d.reset_chatter && !d.reset_water);
}

#[test]
fn chatter_coin_decides() {
    let d = decide(FRESH, Readings { chatter_due: true, coin: false, ..quiet() });
    assert_eq!(d.nudge, None);
    assert!(d.reset_chatter);
}
