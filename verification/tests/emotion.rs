use companion::emotion::{desired_mood, inertia_tenths, settle, Drives};
use companion::mood::Mood;

fn none() -> Drives {
    Drives { exhausted: false, furious: false, lonely_and_attached: false, lonely: false, excited: false, content: false }
}

#[test]
fn mood_priority_mirrors_urgency() {
    assert_eq!(desired_mood(none()), Mood::Neutral);
    assert_eq!(desired_mood(Drives { content: true, ..none() }), Mood::Happy);
    assert_eq!(desired_mood(Drives { excited: true, content: true, ..none() }), Mood::Energetic);
    assert_eq!(desired_mood(Drives { lonely: true, excited: true, ..none() }), Mood::Sad);
    assert_eq!(desired_mood(Drives { lonely: true, lonely_and_attached: true, ..none() }), Mood::Crying);
    assert_eq!(desired_mood(Drives { furious: true, lonely_and_attached: true, ..none() }), Mood::Angry);
    assert_eq!(desired_mood(Drives { exhausted: true, furious: true, ..none() }), Mood::Sleepy);
}

#[test]
fn inertia_per_mood() {
    assert_eq!(inertia_tenths(Mood::Angry), 6);
    assert_eq!(inertia_tenths(Mood::Crying), 15);
    assert_eq!(inertia_tenths(Mood::Sleepy), 25);
    assert_eq!(inertia_tenths(Mood::Happy), 40);
    assert_eq!(inertia_tenths(Mood::Neutral), 40);
}

#[test]
fn hysteresis() {
    assert_eq!(settle(Mood::Happy, Mood::Sad, false), (Mood::Happy, false));
    assert_eq!(settle(Mood::Happy, Mood::Sad, true), (Mood::Sad, true));
    assert_eq!(settle(Mood::Happy, Mood::Happy, false), (Mood::Happy, true));
}
