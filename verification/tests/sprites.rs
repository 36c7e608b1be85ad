use companion::animation::{generate, mood_index, Emote, Pose, Sprites, ATLAS_H, ATLAS_W};
use companion::mood::Mood;
use companion::paint::{paint_into, Rgba, Stroke};

fn checksum(px: &[u8]) -> (u64, u64) {
    let mut sum: u64 = 0;
    let mut h: u64 = 0;
    for &b in px {
        sum += b as u64;
        h = h.wrapping_mul(31).wrapping_add(b as u64);
    }
    (sum, h)
}

fn texel(s: &Sprites, x: u32, y: u32) -> [u8; 4] {
    let i = ((y * s.width + x) * 4) as usize;
    [s.pixels[i], s.pixels[i + 1], s.pixels[i + 2], s.pixels[i + 3]]
}

#[test]
fn atlas_has_one_row_per_mood_and_a_spare_column() {
    let s = generate([255, 176, 84]);
    assert_eq!((s.width, s.height), (256, 224));
    assert_eq!((ATLAS_W, ATLAS_H), (256, 224));
    assert_eq!(s.pixels.len(), 256 * 224 * 4);
}

#[test]
fn default_pumpkin_atlas_matches_reference_pixels() {
    let s = generate([255, 176, 84]);
    assert_eq!(checksum(&s.pixels), (14297506, 3293755662406795894));
    assert_eq!(texel(&s, 16, 16), [255, 199, 135, 255]);
    assert_eq!(texel(&s, 10, 30), [0, 0, 0, 0]);
}

#[test]
fn recoloured_atlases_match_reference_pixels() {
    let sky = generate([90, 200, 255]);
    assert_eq!(checksum(&sky.pixels), (14731455, 17686066436693271527));
    assert_eq!(texel(&sky, 16, 16), [139, 216, 255, 255]);
    let black = generate([0, 0, 0]);
    assert_eq!(checksum(&black.pixels), (6918859, 665170898310051763));
    assert_eq!(texel(&black, 16, 16), [76, 76, 76, 255]);
}

#[test]
fn white_texel_block_sits_top_left_of_spare_column() {
    let s = generate([10, 20, 30]);
    for y in 0..3 {
        for x in 224..227 {
            assert_eq!(texel(&s, x, y), [255, 255, 255, 255]);
        }
    }
    assert_eq!(texel(&s, 230, 20)[3], 0);
}

#[test]
fn pose_and_mood_indices_follow_atlas_layout() {
    let poses = [Pose::Idle0, Pose::Idle1, Pose::Walk0, Pose::Walk1, Pose::Fly0, Pose::Fly1, Pose::Sleep];
    for (i, p) in poses.iter().enumerate() {
        assert_eq!(p.index(), i);
    }
    let moods = [Mood::Happy, Mood::Energetic, Mood::Neutral, Mood::Sleepy, Mood::Sad, Mood::Crying, Mood::Angry];
    for (i, m) in moods.iter().enumerate() {
        assert_eq!(mood_index(*m), i);
    }
    let emotes = [Emote::Zzz, Emote::Tear, Emote::Spark, Emote::Sweat, Emote::Heart, Emote::Exclaim];
    for (i, e) in emotes.iter().enumerate() {
        assert_eq!(e.slot(), i as i32);
    }
}

#[test]
fn emote_for_mood_and_sleep() {
    assert_eq!(Emote::for_mood(Mood::Happy, true), Some(Emote::Zzz));
    assert_eq!(Emote::for_mood(Mood::Crying, false), Some(Emote::Tear));
    assert_eq!(Emote::for_mood(Mood::Sad, false), Some(Emote::Sweat));
    assert_eq!(Emote::for_mood(Mood::Energetic, false), Some(Emote::Spark));
    assert_eq!(Emote::for_mood(Mood::Sleepy, false), Some(Emote::Zzz));
    assert_eq!(Emote::for_mood(Mood::Happy, false), Some(Emote::Heart));
    assert_eq!(Emote::for_mood(Mood::Angry, false), Some(Emote::Exclaim));
    assert_eq!(Emote::for_mood(Mood::Neutral, false), None);
}

#[test]
fn cell_and_emote_rects() {
    let s = generate([255, 176, 84]);
    assert_eq!(s.cell_rect(Mood::Happy, Pose::Idle0), (0, 0, 32, 32));
    assert_eq!(s.cell_rect(Mood::Angry, Pose::Sleep), (192, 192, 32, 32));
    assert_eq!(s.cell_rect(Mood::Sad, Pose::Walk1), (96, 128, 32, 32));
    assert_eq!(s.emote_rect(Emote::Zzz), (224, 16, 16, 16));
    assert_eq!(s.emote_rect(Emote::Exclaim), (224, 96, 16, 16));
}

#[test]
fn blocks_are_clipped_to_the_cell() {
    let red = Rgba { r: 255, g: 0, b: 0, a: 255 };
    let mut buf = vec![0u8; 32 * 32 * 4];
    paint_into(&mut buf, 32, 0, 0, &vec![Stroke::Block { x: -5, y: 30, w: 100, h: 10, color: red }]);
    for y in 0..32 {
        for x in 0..32 {
            let i = (y * 32 + x) * 4;
            let want = if y >= 30 { [255, 0, 0, 255] } else { [0, 0, 0, 0] };
            assert_eq!(buf[i..i + 4], want);
        }
    }
    let before = buf.clone();
    paint_into(&mut buf, 32, 0, 0, &vec![
        Stroke::Block { x: 3, y: 3, w: 0, h: 5, color: red },
        Stroke::Block { x: 3, y: 3, w: -4, h: 5, color: red },
        Stroke::Block { x: 3, y: 3, w: 4, h: 5, color: Rgba { r: 9, g: 9, b: 9, a: 0 } },
    ]);
    assert_eq!(buf, before);
}

#[test]
fn recolouring_keeps_the_spare_column() {
    let a = generate([255, 176, 84]);
    let b = generate([10, 200, 30]);
    for y in 0..224u32 {
        for x in 224..256u32 {
            assert_eq!(texel(&a, x, y), texel(&b, x, y));
        }
    }
    assert_ne!(texel(&a, 16, 16), texel(&b, 16, 16));
}

#[test]
fn recolouring_keeps_every_alpha() {
    let a = generate([255, 176, 84]);
    let b = generate([0, 0, 0]);
    for i in (3..a.pixels.len()).step_by(4) {
        assert_eq!(a.pixels[i], b.pixels[i]);
    }
}

#[test]
fn exclamation_emote_pixels() {
    let s = generate([255, 176, 84]);
    let (ex, ey, _, _) = s.emote_rect(Emote::Exclaim);
    for y in 2..9 {
        for x in 7..9 {
            assert_eq!(texel(&s, ex + x, ey + y)[3], 248);
        }
    }
    for y in 9..11 {
        for x in 0..16 {
            assert_eq!(texel(&s, ex + x, ey + y)[3], 0);
        }
    }
    for y in 11..13 {
        for x in 7..9 {
            assert_eq!(texel(&s, ex + x, ey + y)[3], 248);
        }
    }
}

#[test]
fn cell_may_straddle_rows_of_the_buffer() {
    // a 32-px-wide buffer with the cell shifted 8 px right: each cell row
    // wraps into the next buffer row, exactly as far as the buffer reaches
    let red = Rgba { r: 255, g: 0, b: 0, a: 255 };
    let mut buf = vec![0u8; 4128];
    paint_into(&mut buf, 32, 8, 0, &vec![Stroke::Block { x: 0, y: 0, w: 32, h: 32, color: red }]);
    assert_eq!(buf[..32], [0u8; 32]);
    for p in 8..1032 {
        assert_eq!(buf[p * 4..p * 4 + 4], [255, 0, 0, 255]);
    }
}

#[test]
fn overlapping_cell_rows_blend_twice() {
    // with a 16-px stride two cell rows land on the same pixels
    let white = Rgba { r: 255, g: 255, b: 255, a: 128 };
    let mut buf = vec![0u8; 2112];
    paint_into(&mut buf, 16, 0, 0, &vec![Stroke::Block { x: 0, y: 0, w: 32, h: 2, color: white }]);
    assert_eq!(buf[3], 128);
    assert_eq!(buf[20 * 4 + 3], 192);
    assert_eq!(buf[40 * 4 + 3], 128);
    assert_eq!(buf[48 * 4 + 3], 0);
}
