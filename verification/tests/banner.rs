use companion::banner::{render_glyphs, Banner};
use companion::font::basic_font_get;

fn checksum(px: &[u8]) -> (u64, u64) {
    let mut sum: u64 = 0;
    let mut h: u64 = 0;
    for &b in px {
        sum += b as u64;
        h = h.wrapping_mul(31).wrapping_add(b as u64);
    }
    (sum, h)
}

fn at(b: &Banner, x: u32, y: u32) -> [u8; 4] {
    let i = ((y * b.width + x) * 4) as usize;
    [b.pixels[i], b.pixels[i + 1], b.pixels[i + 2], b.pixels[i + 3]]
}

#[test]
fn banner_size_follows_text_length() {
    let b = Banner::render("hi");
    assert_eq!((b.width, b.height), (46, 36));
    assert_eq!(b.pixels.len(), 46 * 36 * 4);
    let empty = Banner::render("");
    assert_eq!((empty.width, empty.height), (30, 36));
}

#[test]
fn banner_text_is_cut_at_42_characters() {
    let long = "x".repeat(60);
    let b = Banner::render(&long);
    assert_eq!(b.width, 42 * 16 + 14);
    let exact = Banner::render(&"x".repeat(42));
    assert_eq!(b.pixels, exact.pixels);
}

#[test]
fn banner_hi_matches_reference_pixels() {
    let b = Banner::render("hi");
    assert_eq!(checksum(&b.pixels), (621339, 11367310514593385813));
    assert_eq!(at(&b, 0, 0), [0, 0, 0, 0], "rounded corner cut away");
    assert_eq!(at(&b, 5, 0), [112, 124, 155, 240], "border");
    assert_eq!(at(&b, 10, 10), [240, 242, 255, 255], "ink");
    assert_eq!(at(&b, 23, 35), [23, 25, 36, 230], "tail");
}

#[test]
fn banner_reminder_lines_match_reference() {
    let water = Banner::render("Psst... drink some water!");
    assert_eq!(water.width, 414);
    assert_eq!(checksum(&water.pixels), (5302955, 13869571807231094757));
    let ooh = Banner::render("Ooh! What's that?");
    assert_eq!(ooh.width, 286);
    assert_eq!(checksum(&ooh.pixels), (3756642, 8530503385053545660));
}

#[test]
fn banner_non_ascii_draws_no_ink() {
    let b = Banner::render("é!");
    assert_eq!((b.width, b.height), (46, 36));
    assert_eq!(checksum(&b.pixels), (551778, 17671336862218106620));
    assert_eq!(at(&b, 10, 10), [23, 25, 36, 230]);
}

#[test]
fn glyph_rendering_matches_text_rendering() {
    let glyphs = vec![basic_font_get('h').unwrap(), basic_font_get('i').unwrap()];
    let b = render_glyphs(&glyphs);
    assert_eq!(b.pixels, Banner::render("hi").pixels);
}

#[test]
fn basic_font_covers_ascii_only() {
    assert_eq!(basic_font_get('A'), Some([12, 30, 51, 51, 63, 51, 51, 0]));
    assert_eq!(basic_font_get('h'), Some([7, 6, 54, 110, 102, 102, 103, 0]));
    assert_eq!(basic_font_get('\u{0}'), Some([0; 8]));
    assert_eq!(basic_font_get('é'), None);
    assert_eq!(basic_font_get('€'), None);
}
