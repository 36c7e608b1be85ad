use companion::animation::Pose;
use companion::brain::{cycle_tenths, menu, pose_for, react, wander_gait, Behavior, Cues, Locomotion, TimerOp, Weight};
use companion::mood::Mood;

fn behaviors(m: &[(Behavior, Weight)]) -> Vec<Behavior> {
    m.iter().map(|e| e.0).collect()
}

#[test]
fn energetic_menu_in_full() {
    let m = menu(Mood::Energetic, true, true, false, false);
    assert_eq!(
        behaviors(&m),
        vec![Behavior::Play, Behavior::Wander, Behavior::Travel, Behavior::Perch, Behavior::Peek, Behavior::Idle]
    );
    assert_eq!(m[0].1, Weight { base: 40, per_boredom: 30, per_fatigue: 0 });
    assert_eq!(m[3].1, Weight { base: 18, per_boredom: 0, per_fatigue: 0 });
}

#[test]
fn single_monitor_never_travels() {
    for mood in [Mood::Happy, Mood::Energetic, Mood::Neutral, Mood::Sleepy, Mood::Sad, Mood::Crying, Mood::Angry] {
        let m = menu(mood, false, true, true, false);
        assert!(!behaviors(&m).contains(&Behavior::Travel));
        assert!(m.len() >= 2);
        assert!(behaviors(&m).contains(&Behavior::Idle));
    }
}

#[test]
fn naps_only_when_offered() {
    let m = menu(Mood::Neutral, false, false, true, false);
    assert_eq!(*m.last().unwrap(), (Behavior::Sleep, Weight { base: 15, per_boredom: 0, per_fatigue: 30 }));
    let no_nap = menu(Mood::Neutral, false, false, false, false);
    assert!(!behaviors(&no_nap).contains(&Behavior::Sleep));
}

#[test]
fn reduced_motion_walks_instead_of_flying() {
    let m = menu(Mood::Happy, true, true, false, true);
    assert_eq!(
        behaviors(&m),
        vec![Behavior::Wander, Behavior::Wander, Behavior::Wander, Behavior::Travel, Behavior::Peek, Behavior::Idle]
    );
    // weights are kept
    assert_eq!(m[1].1, Weight { base: 20, per_boredom: 20, per_fatigue: 0 });
}

#[test]
fn gloomy_and_angry_menus() {
    assert_eq!(behaviors(&menu(Mood::Sad, true, true, false, false)), vec![Behavior::Idle, Behavior::Wander]);
    assert_eq!(behaviors(&menu(Mood::Sleepy, true, true, false, false)), vec![Behavior::Idle, Behavior::Wander]);
    let angry = menu(Mood::Angry, true, true, false, false);
    assert_eq!(behaviors(&angry), vec![Behavior::Wander, Behavior::Travel, Behavior::Idle]);
    assert_eq!(angry[1].1.base, 20);
}

#[test]
fn frames_for_each_way_of_moving() {
    assert_eq!(pose_for(Locomotion::Sleep, false, 3), Pose::Sleep);
    assert_eq!(pose_for(Locomotion::Tumble, true, 0), Pose::Fly1);
    assert_eq!(pose_for(Locomotion::Fly, false, 4), Pose::Fly0);
    assert_eq!(pose_for(Locomotion::Held, false, 5), Pose::Fly1);
    assert_eq!(pose_for(Locomotion::Walk, true, 2), Pose::Walk0);
    assert_eq!(pose_for(Locomotion::Run, true, 7), Pose::Walk1);
    assert_eq!(pose_for(Locomotion::Walk, false, 7), Pose::Idle1);
    assert_eq!(pose_for(Locomotion::Idle, true, 8), Pose::Idle0);
}

#[test]
fn frame_rates() {
    assert_eq!(cycle_tenths(Locomotion::Held, false), 40);
    assert_eq!(cycle_tenths(Locomotion::Fly, false), 80);
    assert_eq!(cycle_tenths(Locomotion::Run, true), 110);
    assert_eq!(cycle_tenths(Locomotion::Walk, true), 70);
    assert_eq!(cycle_tenths(Locomotion::Walk, false), 16);
    assert_eq!(cycle_tenths(Locomotion::Sleep, false), 16);
}

fn calm() -> Cues {
    Cues {
        held: false,
        tumbling: false,
        summon: false,
        cursor_known: true,
        noti: false,
        angry: false,
        exhausted: false,
        refreshed: false,
        cursor_close: false,
        chase_invite: false,
        shy: false,
        cursor_gone: false,
        drifting: false,
        on_ground: true,
        coin: false,
    }
}

#[test]
fn held_overrides_everything() {
    let r = react(Behavior::Sleep, Cues { held: true, summon: true, noti: true, ..calm() }, Some(true));
    assert_eq!(r.behavior, Behavior::Held);
    assert_eq!(r.gait, Some(Locomotion::Held));
    assert_eq!(r.timer, vec![TimerOp::To(3)]);
    assert_eq!(r.fall_flutter, Some(true));
}

#[test]
fn thrown_tumbles_then_shakes_it_off() {
    let r = react(Behavior::Wander, Cues { tumbling: true, on_ground: false, ..calm() }, None);
    assert_eq!((r.behavior, r.gait), (Behavior::Tumble, Some(Locomotion::Tumble)));
    let landed = react(Behavior::Tumble, calm(), None);
    assert_eq!(landed.behavior, Behavior::Idle);
    assert_eq!(landed.gait, None);
    assert_eq!(landed.timer, vec![TimerOp::Random(4, 10)]);
    let dropped = react(Behavior::Held, calm(), None);
    assert_eq!((dropped.behavior, dropped.timer), (Behavior::Idle, vec![TimerOp::To(2)]));
}

#[test]
fn reminder_brings_it_to_the_cursor() {
    let r = react(Behavior::Sleep, Cues { summon: true, noti: true, exhausted: true, angry: true, cursor_close: true, ..calm() }, None);
    assert_eq!(r.behavior, Behavior::FollowCursor);
    assert_eq!(r.timer, vec![TimerOp::To(5)]);
    assert!(!r.investigate);
}

#[test]
fn notification_draws_it_over_unless_angry() {
    let r = react(Behavior::Wander, Cues { noti: true, ..calm() }, None);
    assert_eq!(r.behavior, Behavior::Investigate);
    assert!(r.investigate);
    assert_eq!(r.timer, vec![TimerOp::To(70)]);
    let grumpy = react(Behavior::Wander, Cues { noti: true, angry: true, ..calm() }, None);
    assert_eq!(grumpy.behavior, Behavior::Wander);
    let gone = react(Behavior::Investigate, calm(), None);
    assert_eq!(gone.timer, vec![TimerOp::AtMost(12)]);
}

#[test]
fn sleep_is_earned_and_ends_on_return() {
    let tired = react(Behavior::Wander, Cues { exhausted: true, ..calm() }, None);
    assert_eq!(tired.behavior, Behavior::Sleep);
    let back = react(Behavior::Sleep, Cues { refreshed: true, ..calm() }, None);
    assert_eq!((back.behavior, back.timer), (Behavior::Sleep, vec![TimerOp::To(0)]));
}

#[test]
fn cursor_games() {
    let flee = react(Behavior::Idle, Cues { angry: true, cursor_close: true, ..calm() }, None);
    assert_eq!((flee.behavior, flee.timer), (Behavior::FleeCursor, vec![TimerOp::AtLeast(4)]));
    let chase = react(Behavior::Peek, Cues { chase_invite: true, ..calm() }, None);
    assert_eq!(chase.behavior, Behavior::FollowCursor);
    assert!(chase.chase_cooldown);
    assert_eq!(chase.timer, vec![TimerOp::Random(25, 55)]);
    let shy = react(Behavior::Peek, Cues { chase_invite: true, shy: true, ..calm() }, None);
    assert_eq!(shy.behavior, Behavior::FleeCursor);
    let busy = react(Behavior::Travel, Cues { chase_invite: true, ..calm() }, None);
    assert_eq!(busy.behavior, Behavior::Travel);
    let lost = react(Behavior::FollowCursor, Cues { cursor_gone: true, ..calm() }, None);
    assert_eq!(lost.timer, vec![TimerOp::To(0)]);
}

#[test]
fn left_in_mid_air_it_flutters_off_once_decided() {
    let air = Cues { drifting: true, on_ground: false, coin: true, ..calm() };
    let r = react(Behavior::Idle, air, None);
    assert_eq!(r.behavior, Behavior::Play);
    assert!(r.take_off);
    assert_eq!(r.timer, vec![TimerOp::Random(30, 60)]);
    assert_eq!(r.fall_flutter, Some(true));
    // a fall already decided to drop keeps dropping whatever the coin says
    let drop = react(Behavior::Idle, air, Some(false));
    assert_eq!(drop.behavior, Behavior::Idle);
    assert_eq!(drop.fall_flutter, Some(false));
    // landing forgets the decision
    assert_eq!(react(Behavior::Idle, calm(), Some(false)).fall_flutter, None);
}

#[test]
fn wander_gaits() {
    assert_eq!(wander_gait(Mood::Energetic, false), Locomotion::Run);
    assert_eq!(wander_gait(Mood::Angry, false), Locomotion::Run);
    assert_eq!(wander_gait(Mood::Angry, true), Locomotion::Walk);
    assert_eq!(wander_gait(Mood::Happy, false), Locomotion::Walk);
}

#[test]
fn calm_frames_keep_the_plan() {
    for b in [Behavior::Wander, Behavior::Peek, Behavior::Travel, Behavior::Perch, Behavior::Investigate, Behavior::Play] {
        let r = react(b, calm(), None);
        assert_eq!(r.behavior, b);
        assert_eq!(r.gait, None);
    }
}

#[test]
fn angry_refuses_to_follow_and_never_dozes_off_at_random() {
    let r = react(Behavior::Idle, Cues { angry: true, chase_invite: true, ..calm() }, None);
    assert_eq!(r.behavior, Behavior::Idle);
    assert!(!r.chase_cooldown);
    let awake = react(Behavior::Wander, Cues { refreshed: true, ..calm() }, None);
    assert_ne!(awake.behavior, Behavior::Sleep);
}
