use companion::convert::{canvas_side, decode_raster, frame_figure, sanitize, trim, ConvertError};
use companion::raster::Raster;

fn px(img: &Raster, x: u32, y: u32) -> [u8; 4] {
    let i = ((y * img.width + x) * 4) as usize;
    [img.pixels[i], img.pixels[i + 1], img.pixels[i + 2], img.pixels[i + 3]]
}

fn png_bytes(w: u32, h: u32, pixels: Vec<u8>) -> Vec<u8> {
    let img = image::RgbaImage::from_raw(w, h, pixels).unwrap();
    let mut out = std::io::Cursor::new(Vec::new());
    img.write_to(&mut out, image::ImageFormat::Png).unwrap();
    out.into_inner()
}

#[test]
fn sanitize_pack_names() {
    assert_eq!(sanitize("Thor"), "thor");
    assert_eq!(sanitize("My Cat!"), "my-cat-");
    assert_eq!(sanitize("a_b-C9"), "a_b-c9");
    assert_eq!(sanitize(""), "pet");
    assert_eq!(sanitize("ünï"), "-n-");
}

#[test]
fn sanitize_is_idempotent() {
    let once = sanitize("Hello, World_42");
    assert_eq!(sanitize(&once), once);
}

#[test]
fn trim_crops_to_opaque_figure() {
    let mut pixels = vec![0u8; 4 * 3 * 4];
    // a faint pixel at (0, 0) stays margin; a solid one at (2, 1)
    pixels[3] = 10;
    let i = ((1 * 4 + 2) * 4) as usize;
    pixels[i..i + 4].copy_from_slice(&[9, 8, 7, 200]);
    let img = Raster { width: 4, height: 3, pixels };
    let t = trim(&img).unwrap();
    assert_eq!((t.width, t.height), (1, 1));
    assert_eq!(t.pixels, vec![9, 8, 7, 200]);
}

#[test]
fn trim_keeps_the_cutoff_boundary() {
    let mut pixels = vec![0u8; 3 * 2 * 4];
    pixels[3] = 16; // exactly at the cutoff: margin
    pixels[(1 * 3 + 2) * 4 + 3] = 17; // just above: figure
    pixels[(0 * 3 + 1) * 4 + 3] = 255;
    let img = Raster { width: 3, height: 2, pixels };
    let t = trim(&img).unwrap();
    assert_eq!((t.width, t.height), (2, 2));
    assert_eq!(px(&t, 0, 0)[3], 255);
    assert_eq!(px(&t, 1, 1)[3], 17);
}

#[test]
fn trim_of_transparent_image_is_none() {
    let img = Raster { width: 2, height: 2, pixels: vec![0, 0, 0, 16].repeat(4) };
    assert!(trim(&img).is_none());
}

#[test]
fn decode_png_avatar() {
    let bytes = png_bytes(2, 1, vec![255, 0, 0, 255, 0, 0, 255, 128]);
    let img = decode_raster(&bytes).ok().unwrap();
    assert_eq!((img.width, img.height), (2, 1));
    assert_eq!(img.pixels, vec![255, 0, 0, 255, 0, 0, 255, 128]);
}

#[test]
fn decode_garbage_is_unsupported() {
    match decode_raster(b"definitely not an image") {
        Err(ConvertError::Unsupported(_)) => {}
        _ => panic!("garbage must not decode"),
    }
}

#[test]
fn frame_figure_bottom_anchors_and_squares() {
    let fig = Raster { width: 2, height: 2, pixels: vec![200, 10, 20, 255].repeat(4) };
    let f = frame_figure(&fig, 2);
    assert_eq!((f.pad, f.side), (4, 10));
    assert_eq!((f.canvas.width, f.canvas.height), (10, 10));
    assert_eq!(px(&f.canvas, 4, 4), [200, 10, 20, 255]);
    assert_eq!(px(&f.canvas, 5, 5), [200, 10, 20, 255]);
    assert_eq!(px(&f.canvas, 3, 4), [0, 0, 0, 0]);
    assert_eq!(px(&f.canvas, 4, 6), [0, 0, 0, 0]);
    assert_eq!(px(&f.canvas, 0, 0), [0, 0, 0, 0]);
}

#[test]
fn frame_pad_is_a_tenth_of_the_figure() {
    let fig = Raster { width: 100, height: 60, pixels: vec![1, 1, 1, 255].repeat(6000) };
    let f = frame_figure(&fig, 160);
    assert_eq!(f.pad, 16);
    assert_eq!(f.side, 132);
    // centred horizontally, standing `pad` above the bottom
    assert_eq!(px(&f.canvas, 16, 131 - 16)[3], 255);
    assert_eq!(px(&f.canvas, 16, 131 - 15)[3], 0);
    assert_eq!(px(&f.canvas, 15, 100)[3], 0);
}

#[test]
fn canvas_side_follows_single_precision_tenth() {
    assert_eq!(canvas_side(2, 2, 2), Some(10));
    assert_eq!(canvas_side(100, 60, 160), Some(132));
    // past 2^24 the single-precision tenth rounds up where integer division does not
    assert_eq!(canvas_side(0, 0, 16777219), Some(2 * 1677722));
    assert_eq!(canvas_side(160, 10, 3_000_000_000), Some(160 + 2 * 300_000_000));
    assert_eq!(canvas_side(4_294_967_295, 1, 4_294_967_295), None);
}
