use companion::scout::{scouted_windows, subtract, survey, Geometry, WindowAtoms, WindowProbe};

const ATOMS: WindowAtoms = WindowAtoms {
    normal: 1,
    dialog: 2,
    notification: 3,
    dock: 4,
    desktop: 5,
    menu: 6,
    toolbar: 7,
    splash: 8,
    utility: 9,
    hidden: 20,
    fullscreen: 21,
};

fn win(id: u32, x: i16, y: i16, w: u16, h: u16) -> WindowProbe {
    WindowProbe {
        id,
        types: vec![1],
        states: vec![],
        desktop: Some(0),
        geometry: Some(Geometry { x, y, width: w, height: h }),
        frame_extents: None,
    }
}

#[test]
fn subtract_splits_and_keeps() {
    assert_eq!(subtract(&vec![(0, 100)], (40, 60)), vec![(0, 40), (60, 100)]);
    assert_eq!(subtract(&vec![(0, 100)], (100, 200)), vec![(0, 100)]);
    assert_eq!(subtract(&vec![(0, 100)], (-50, 30)), vec![(30, 100)]);
    assert_eq!(subtract(&vec![(0, 100)], (-50, 300)), Vec::<(i64, i64)>::new());
    assert_eq!(subtract(&vec![(0, 10), (20, 30)], (5, 25)), vec![(0, 5), (25, 30)]);
}

#[test]
fn scout_looks_at_topmost_thirty() {
    let stacking: Vec<u32> = (0..45).collect();
    let top = scouted_windows(&stacking);
    assert_eq!(top, (15..45).collect::<Vec<u32>>());
    assert_eq!(scouted_windows(&vec![7, 8]), vec![7, 8]);
}

#[test]
fn uncovered_window_top_is_a_platform() {
    let s = survey(&vec![win(10, 100, 300, 400, 300)], &ATOMS, 10, Some(0));
    assert_eq!(s.platforms.len(), 1);
    let p = s.platforms[0];
    assert_eq!((p.x0, p.x1, p.y), (106, 494, 300));
    let a = s.active_top.unwrap();
    assert_eq!((a.x0, a.x1, a.y), (106, 494, 300));
    assert!(s.notifications.is_empty());
}

#[test]
fn higher_window_splits_lower_top_edge() {
    // the second window (higher in stacking) crosses the first one's top line
    let ws = vec![win(1, 0, 300, 600, 300), win(2, 200, 200, 200, 400)];
    let s = survey(&ws, &ATOMS, 1, None);
    let got: Vec<(i64, i64, i64)> = s.platforms.iter().map(|p| (p.x0, p.x1, p.y)).collect();
    assert_eq!(got, vec![(6, 194, 300), (406, 594, 300), (206, 394, 200)]);
    let a = s.active_top.unwrap();
    assert_eq!((a.x0, a.x1), (6, 194));
}

#[test]
fn narrow_uncovered_bits_are_dropped() {
    let ws = vec![win(1, 0, 300, 300, 300), win(2, 50, 200, 240, 400)];
    let s = survey(&ws, &ATOMS, 99, None);
    let got: Vec<(i64, i64, i64)> = s.platforms.iter().map(|p| (p.x0, p.x1, p.y)).collect();
    // 0..50 (too short) and 290..300 (too short) vanish
    assert_eq!(got, vec![(56, 284, 200)]);
    assert!(s.active_top.is_none());
}

#[test]
fn filtered_windows_never_become_platforms() {
    let mut hidden = win(1, 0, 100, 400, 300);
    hidden.states = vec![20];
    let mut dock = win(2, 0, 100, 400, 300);
    dock.types = vec![4];
    let mut full = win(3, 0, 100, 400, 300);
    full.states = vec![21];
    let small = win(4, 0, 100, 139, 300);
    let short = win(5, 0, 100, 400, 89);
    let mut other_desk = win(6, 0, 100, 400, 300);
    other_desk.desktop = Some(3);
    let mut unknown_type = win(7, 0, 100, 400, 300);
    unknown_type.types = vec![77];
    let mut unmeasured = win(8, 0, 100, 400, 300);
    unmeasured.geometry = None;
    let ws = vec![hidden, dock, full, small, short, other_desk, unknown_type, unmeasured];
    let s = survey(&ws, &ATOMS, 1, Some(0));
    assert!(s.platforms.is_empty());
    assert!(s.active_top.is_none());
    assert!(s.notifications.is_empty());
}

#[test]
fn sticky_untyped_and_dialog_windows_count() {
    let mut sticky = win(1, 0, 100, 400, 300);
    sticky.desktop = Some(u32::MAX);
    let mut untyped = win(2, 500, 100, 400, 300);
    untyped.types = vec![];
    untyped.desktop = None;
    let mut dialog = win(3, 1000, 100, 400, 300);
    dialog.types = vec![2];
    dialog.desktop = Some(1);
    let s = survey(&vec![sticky, untyped, dialog], &ATOMS, 0, Some(1));
    assert_eq!(s.platforms.len(), 3);
}

#[test]
fn frame_extents_strip_shadow_margins() {
    let mut csd = win(1, 100, 100, 400, 300);
    csd.frame_extents = Some(vec![20, 20, 30, 40]);
    let s = survey(&vec![csd], &ATOMS, 1, None);
    let p = s.platforms[0];
    assert_eq!((p.x0, p.x1, p.y), (126, 474, 130));
}

#[test]
fn notification_popups_are_reported_not_walked() {
    let mut pop = win(9, 800, 20, 300, 100);
    pop.types = vec![3];
    let s = survey(&vec![pop, win(1, 0, 300, 600, 300)], &ATOMS, 1, None);
    assert_eq!(s.notifications.len(), 1);
    let n = s.notifications[0];
    assert_eq!((n.id, n.x0, n.y0, n.x1, n.y1), (9, 800, 20, 1100, 120));
    assert_eq!(s.platforms.len(), 1);
}

#[test]
fn at_most_32_platforms() {
    let ws: Vec<WindowProbe> = (0..40).map(|i| win(i, (i as i16) * 700, 500, 400, 200)).collect();
    let s = survey(&ws, &ATOMS, 35, None);
    assert_eq!(s.platforms.len(), 32);
    assert_eq!(s.platforms[31].x0, 31 * 700 + 6);
    // the focused window's top counts even beyond the cap
    assert_eq!(s.active_top.unwrap().x0, 35 * 700 + 6);
}

#[test]
fn active_top_is_widest_stretch() {
    // window 1 split by window 2 into a 300-wide and a 100-wide stretch
    let ws = vec![win(1, 0, 300, 600, 300), win(2, 300, 200, 200, 400)];
    let s = survey(&ws, &ATOMS, 1, None);
    let a = s.active_top.unwrap();
    assert_eq!((a.x0, a.x1), (6, 294));
}
