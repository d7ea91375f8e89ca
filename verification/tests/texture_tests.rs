use death_maze::texture::{channels, pack_rgb, Texture};

#[test]
fn pack_rgb_lays_out_channels() {
    assert_eq!(pack_rgb(0x12, 0x34, 0x56), 0x123456);
    assert_eq!(pack_rgb(255, 255, 255), 0xFFFFFF);
    assert_eq!(pack_rgb(0, 0, 0), 0);
    assert_eq!(pack_rgb(1, 2, 3), 1 * 65536 + 2 * 256 + 3);
}

#[test]
fn pack_rgb_wide_channels_overlap() {
    assert_eq!(pack_rgb(0x1FF, 0, 0), 0x1FF0000);
    assert_eq!(pack_rgb(0, 0x1FF, 0x1), 0x1FF01);
}

#[test]
fn channels_split_colour() {
    assert_eq!(channels(0x123456), (0x12, 0x34, 0x56));
    assert_eq!(channels(0xFF123456), (0x12, 0x34, 0x56));
    assert_eq!(channels(0), (0, 0, 0));
}

#[test]
fn channels_of_packed_round_trip() {
    for &(r, g, b) in &[(0u32, 0u32, 0u32), (255, 0, 128), (1, 254, 77), (255, 255, 255)] {
        assert_eq!(channels(pack_rgb(r, g, b)), (r, g, b));
    }
}

#[test]
fn packed_of_channels_keeps_low_24_bits() {
    for &c in &[0u32, 0x123456, 0xFF123456, 0xFFFFFFFF] {
        let (r, g, b) = channels(c);
        assert_eq!(pack_rgb(r, g, b), c & 0xFFFFFF);
    }
}

#[test]
fn from_rgba8_packs_pixels_and_drops_alpha() {
    let t = Texture::from_rgba8(2, 1, &vec![1, 2, 3, 4, 5, 6, 7, 8]);
    assert_eq!(t.width, 2);
    assert_eq!(t.height, 1);
    assert_eq!(t.buffer, vec![0x010203, 0x050607]);
}

#[test]
fn from_rgba8_ignores_incomplete_pixel() {
    let t = Texture::from_rgba8(1, 1, &vec![9, 8, 7, 6, 1, 2]);
    assert_eq!(t.buffer, vec![0x090807]);
}

#[test]
fn texel_reads_row_major() {
    let t = Texture { width: 2, height: 2, buffer: vec![10, 11, 12, 13] };
    assert_eq!(t.texel(0, 0), 10);
    assert_eq!(t.texel(1, 0), 11);
    assert_eq!(t.texel(0, 1), 12);
    assert_eq!(t.texel(1, 1), 13);
}

#[test]
fn corner_colors_inside_and_at_border() {
    let t = Texture { width: 3, height: 2, buffer: vec![0, 1, 2, 10, 11, 12] };
    assert_eq!(t.corner_colors(0, 0), (0, 10, 1, 11));
    assert_eq!(t.corner_colors(1, 0), (1, 11, 2, 12));
    assert_eq!(t.corner_colors(2, 1), (12, 12, 12, 12));
    assert_eq!(t.corner_colors(2, 0), (2, 12, 2, 12));
}

#[test]
fn corner_colors_single_pixel() {
    let t = Texture { width: 1, height: 1, buffer: vec![0xABCDEF] };
    assert_eq!(t.corner_colors(0, 0), (0xABCDEF, 0xABCDEF, 0xABCDEF, 0xABCDEF));
}

#[test]
fn corner_colors_past_last_column_reads_next_row() {
    let t = Texture { width: 2, height: 3, buffer: vec![0, 1, 2, 3, 4, 5] };
    assert_eq!(t.corner_colors(2, 0), (2, 4, 1, 3));
}

#[test]
fn interpolation_corners_of_full_texture_stay_inside() {
    let t = Texture::from_rgba8(3, 2, &(0u8..24).collect::<Vec<u8>>());
    assert_eq!(t.buffer.len(), 6);
    for y1 in 0..2 {
        for x1 in 0..3 {
            let (c11, c12, c21, c22) = t.corner_colors(x1, y1);
            let x2 = (x1 + 1).min(2);
            let y2 = (y1 + 1).min(1);
            assert_eq!(c11, t.buffer[y1 * 3 + x1]);
            assert_eq!(c12, t.buffer[y2 * 3 + x1]);
            assert_eq!(c21, t.buffer[y1 * 3 + x2]);
            assert_eq!(c22, t.buffer[y2 * 3 + x2]);
        }
    }
}

fn png_bytes(width: u32, height: u32, rgba: Vec<u8>) -> Vec<u8> {
    let img = image::RgbaImage::from_raw(width, height, rgba).unwrap();
    let mut out = std::io::Cursor::new(Vec::new());
    img.write_to(&mut out, image::ImageFormat::Png).unwrap();
    out.into_inner()
}

#[test]
fn from_image_bytes_decodes_png() {
    let bytes = png_bytes(2, 1, vec![0x12, 0x34, 0x56, 0xFF, 1, 2, 3, 0]);
    let t = Texture::from_image_bytes(&bytes, "wall.png").ok().unwrap();
    assert_eq!(t.buffer.len(), t.width * t.height);
    assert_eq!(t.width, 2);
    assert_eq!(t.height, 1);
    assert_eq!(t.buffer, vec![0x123456, 0x010203]);
}

#[test]
fn from_image_bytes_extension_is_case_insensitive() {
    let bytes = png_bytes(1, 1, vec![9, 8, 7, 6]);
    let t = Texture::from_image_bytes(&bytes, "dir/WALL.PNG").ok().unwrap();
    assert_eq!(t.buffer, vec![0x090807]);
}

#[test]
fn from_image_bytes_fails_on_bad_input() {
    let bytes = png_bytes(1, 1, vec![9, 8, 7, 6]);
    assert!(Texture::from_image_bytes(&bytes, "wall").is_err());
    assert!(Texture::from_image_bytes(&bytes, "wall.txt").is_err());
    assert!(Texture::from_image_bytes(&vec![1, 2, 3], "wall.png").is_err());
    assert!(Texture::from_image_bytes(&bytes, "wall.jpg").is_err());
}
