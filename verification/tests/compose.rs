use companion::compose::{frame_layout, Frame, Src};

#[test]
fn layout_without_banner() {
    let l = frame_layout(24, 0, 0);
    assert_eq!((l.w, l.h, l.box_top, l.center_x, l.center_y), (24, 24, 0, 12, 12));
}

#[test]
fn banner_sits_above_the_sprite_box() {
    // a "hi" banner is 46 by 36
    let l = frame_layout(12, 46, 36);
    assert_eq!((l.w, l.h), (46, 52));
    assert_eq!(l.box_top, 40);
    assert_eq!((l.center_x, l.center_y), (23, 46));
    assert_eq!(l.banner_x, 0);
    let wide = frame_layout(100, 46, 36);
    assert_eq!((wide.w, wide.h, wide.banner_x), (100, 140, 27));
}

#[test]
fn blank_frame_is_transparent() {
    let l = frame_layout(6, 4, 2);
    let f = Frame::blank(&l);
    assert_eq!((f.w, f.h), (6, 12));
    assert_eq!(f.bgra.len(), 6 * 12 * 4);
    assert!(f.bgra.iter().all(|b| *b == 0));
    assert_eq!((f.center_x, f.center_y), (3, 9));
}

#[test]
fn texel_reads_inside_the_rectangle() {
    let px: Vec<u8> = (0..(3 * 2 * 4)).map(|i| i as u8).collect();
    let s = Src { pixels: &px, stride: 3, x: 1, y: 0, w: 2, h: 2 };
    assert_eq!(s.texel(0, 0), [4, 5, 6, 7]);
    assert_eq!(s.texel(1, 1), [20, 21, 22, 23]);
}
