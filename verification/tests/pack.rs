use companion::pack::{decode_sprite, encode_sprite, PetPack, SpriteError};
use companion::raster::Raster;

#[test]
fn sprite_blob_layout() {
    let img = Raster { width: 2, height: 1, pixels: vec![1, 2, 3, 4, 5, 6, 7, 8] };
    let blob = encode_sprite(&img);
    assert_eq!(blob, vec![2, 0, 0, 0, 1, 0, 0, 0, 1, 2, 3, 4, 5, 6, 7, 8]);
}

#[test]
fn sprite_roundtrip() {
    let px: Vec<u8> = (0..(3 * 2 * 4)).map(|i| (i * 7) as u8).collect();
    let img = Raster { width: 3, height: 2, pixels: px.clone() };
    let back = decode_sprite(&encode_sprite(&img)).unwrap();
    assert_eq!((back.width, back.height), (3, 2));
    assert_eq!(back.pixels, px);
}

#[test]
fn sprite_header_is_little_endian() {
    let mut blob = vec![0x01, 0x01, 0, 0, 1, 0, 0, 0];
    blob.extend(std::iter::repeat(9u8).take(257 * 4));
    let img = decode_sprite(&blob).unwrap();
    assert_eq!((img.width, img.height), (257, 1));
}

#[test]
fn sprite_too_small() {
    assert_eq!(decode_sprite(&[1, 0, 0, 0, 1, 0, 0]).err(), Some(SpriteError::TooSmall));
    assert_eq!(decode_sprite(&[]).err(), Some(SpriteError::TooSmall));
}

#[test]
fn sprite_size_mismatch() {
    let blob = [1u8, 0, 0, 0, 1, 0, 0, 0, 9];
    assert_eq!(decode_sprite(&blob).err(), Some(SpriteError::SizeMismatch { got: 9, want: 12 }));
    let huge = [0xff, 0xff, 0xff, 0xff, 0xff, 0xff, 0xff, 0xff];
    assert_eq!(
        decode_sprite(&huge).err(),
        Some(SpriteError::SizeMismatch { got: 8, want: 8 + 0xffff_ffffu128 * 0xffff_ffff * 4 })
    );
}

#[test]
fn pet_pack_from_sprite() {
    let img = Raster { width: 1, height: 2, pixels: vec![1, 2, 3, 4, 5, 6, 7, 8] };
    let blob = encode_sprite(&img);
    let p = PetPack::from_sprite(&blob, 0, 5).ok().unwrap();
    assert_eq!((p.width, p.height, p.fig_height, p.bottom_margin), (1, 2, 1, 5));
    assert_eq!(p.pixels, img.pixels);
    let q = PetPack::from_sprite(&blob, 40, 0).ok().unwrap();
    assert_eq!(q.fig_height, 40);
    assert_eq!(PetPack::from_sprite(&blob[..10], 40, 0).err(), Some(SpriteError::SizeMismatch { got: 10, want: 16 }));
}
