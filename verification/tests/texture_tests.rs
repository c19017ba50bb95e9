use raycaster::texture::{load_texture_from_bytes, texture_from_decoded, Texture};

#[test]
fn get_pixel_packs_argb() {
    let t = Texture { width: 2, height: 1, data: vec![0x11, 0x22, 0x33, 0x44, 1, 2, 3, 4] };
    assert_eq!(t.get_pixel(0), 0x44112233);
    assert_eq!(t.get_pixel(1), 0x04010203);
}

#[test]
fn get_pixel_channels_read_back() {
    let t = Texture { width: 1, height: 1, data: vec![0xAB, 0xCD, 0xEF, 0x80] };
    let p = t.get_pixel(0);
    assert_eq!((p >> 24) & 0xFF, 0x80);
    assert_eq!((p >> 16) & 0xFF, 0xAB);
    assert_eq!((p >> 8) & 0xFF, 0xCD);
    assert_eq!(p & 0xFF, 0xEF);
}

fn png_bytes(width: u32, height: u32, rgba: Vec<u8>) -> Vec<u8> {
    let img = image::RgbaImage::from_raw(width, height, rgba).unwrap();
    let mut bytes: Vec<u8> = Vec::new();
    img.write_to(&mut std::io::Cursor::new(&mut bytes), image::ImageFormat::Png).unwrap();
    bytes
}

#[test]
fn png_file_decodes_to_rgba() {
    let rgba = vec![255, 0, 0, 255, 0, 128, 255, 64];
    let bytes = png_bytes(2, 1, rgba.clone());
    let t = load_texture_from_bytes(&bytes, "assets/wall.png").unwrap();
    assert_eq!(t.width, 2);
    assert_eq!(t.height, 1);
    assert_eq!(t.data, rgba);
    assert_eq!(t.get_pixel(1), 0x400080FF);
}

#[test]
fn unknown_extension_is_an_error() {
    let bytes = png_bytes(1, 1, vec![1, 2, 3, 4]);
    let e = load_texture_from_bytes(&bytes, "assets/wall.unknown").err().unwrap();
    assert_eq!(e, "Error cargando la textura");
    assert!(load_texture_from_bytes(&bytes, "assets/wall").is_err());
}

#[test]
fn undecodable_bytes_are_an_error() {
    let e = load_texture_from_bytes(&[1, 2, 3, 4, 5], "assets/wall.png").err().unwrap();
    assert_eq!(e, "Error cargando la textura");
}

#[test]
fn decoded_parts_make_the_texture() {
    let t = texture_from_decoded(Some((3, 2, vec![9; 24]))).unwrap();
    assert_eq!((t.width, t.height, t.data.len()), (3, 2, 24));
    assert_eq!(texture_from_decoded(None).err().unwrap(), "Error cargando la textura");
}

#[test]
fn loaded_texture_has_four_bytes_per_pixel() {
    let rgba: Vec<u8> = (0..3 * 2 * 4).map(|i| i as u8).collect();
    let t = load_texture_from_bytes(&png_bytes(3, 2, rgba), "t.png").unwrap();
    assert_eq!(t.data.len(), 4 * t.width as usize * t.height as usize);
    assert_eq!(t.get_pixel(5), u32::from_be_bytes([23, 20, 21, 22]));
}
