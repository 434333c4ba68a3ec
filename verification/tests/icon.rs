use taskbar::icon::{blend_over, composite, from_png, pick_best, scale_nearest, to_png, Pixmap};

fn solid(width: i32, height: i32, pixel: [u8; 4]) -> Pixmap {
    let mut p = Pixmap::new(width, height, vec![0; (width * height) as usize * 4]);
    for y in 0..height {
        for x in 0..width {
            p.set_pixel(x, y, pixel);
        }
    }
    p
}

#[test]
fn valid_pixmap_round_trips_rgba() {
    let p = solid(2, 2, [255, 1, 2, 3]);
    assert!(p.is_valid());
    assert_eq!(p.row_stride(), 8);
    assert_eq!(p.pixel(1, 1), Some([255, 1, 2, 3]));
    let rgba: Vec<u8> = (0..4).flat_map(|_| [1, 2, 3, 255]).collect();
    assert_eq!(p.to_rgba(), Some(rgba));
    assert_eq!(Pixmap::from_rgba(2, 2, &p.to_rgba().unwrap()), p);
}

#[test]
fn malformed_pixmap_is_rejected() {
    assert!(!Pixmap::new(2, 2, vec![0; 15]).is_valid());
    assert!(!Pixmap::new(0, 2, vec![]).is_valid());
    assert!(!Pixmap::default().is_valid());
}

#[test]
fn out_of_bounds_access_is_none() {
    let p = solid(1, 1, [255, 0, 0, 0]);
    assert_eq!(p.pixel(1, 0), None);
    assert_eq!(p.pixel(0, -1), None);
}

#[test]
fn pick_best_prefers_smallest_sufficient_pixmap() {
    let small = solid(16, 16, [255, 0, 0, 0]);
    let good = solid(24, 24, [255, 0, 0, 0]);
    let huge = solid(64, 64, [255, 0, 0, 0]);
    let pixmaps = vec![small.clone(), good.clone(), huge.clone()];

    assert_eq!(pick_best(&pixmaps, 22), Some(&good));
    assert_eq!(pick_best(&pixmaps, 8), Some(&small));
}

#[test]
fn pick_best_falls_back_to_largest() {
    let small = solid(16, 16, [255, 0, 0, 0]);
    let pixmaps = vec![small.clone(), Pixmap::new(8, 8, vec![])];
    assert_eq!(pick_best(&pixmaps, 48), Some(&small));
    assert_eq!(pick_best(&[], 22), None);
}

#[test]
fn scale_nearest_keeps_colour_and_size() {
    let p = solid(2, 2, [255, 9, 8, 7]);
    let scaled = scale_nearest(&p, 4, 4);
    assert!(scaled.is_valid());
    assert_eq!((scaled.width, scaled.height), (4, 4));
    assert_eq!(scaled.pixel(3, 3), Some([255, 9, 8, 7]));
}

#[test]
fn composite_blends_overlay_over_base() {
    let base = solid(4, 4, [255, 0, 0, 0]);
    let overlay = solid(4, 4, [255, 255, 255, 255]);
    let merged = composite(&base, &overlay);
    assert_eq!(merged.pixel(2, 2), Some([255, 255, 255, 255]));
}

#[test]
fn composite_centres_small_overlay() {
    let base = solid(4, 4, [255, 0, 0, 0]);
    let overlay = solid(2, 2, [255, 255, 255, 255]);
    let merged = composite(&base, &overlay);
    assert_eq!(merged.pixel(0, 0), Some([255, 0, 0, 0]), "corner stays base");
    assert_eq!(merged.pixel(1, 1), Some([255, 255, 255, 255]));
    assert_eq!(merged.pixel(2, 2), Some([255, 255, 255, 255]));
    assert_eq!(merged.pixel(3, 3), Some([255, 0, 0, 0]));
}

#[test]
fn png_round_trip_keeps_the_picture() {
    let p = solid(3, 2, [255, 10, 20, 30]);
    let png = to_png(&p).expect("encodes");
    assert!(png.starts_with(&[0x89, b'P', b'N', b'G']), "is a PNG: {png:?}");

    let back = from_png(&png).expect("decodes");
    assert_eq!((back.width, back.height), (3, 2));
    assert_eq!(back.pixel(2, 1), Some([255, 10, 20, 30]));
}

#[test]
fn broken_images_encode_to_nothing() {
    assert!(to_png(&Pixmap::new(2, 2, vec![0; 3])).is_none());
    assert!(from_png(&[1, 2, 3]).is_none());
}

#[test]
fn blend_over_uses_straight_alpha() {
    let mut dst = [255, 0, 0, 0];
    blend_over(&mut dst, [128, 255, 255, 255]);
    assert_eq!(dst[0], 255, "opaque destination stays opaque");
    assert!(dst[1] > 100 && dst[1] < 155, "half transparent white: {dst:?}");

    let mut clear = [0, 0, 0, 0];
    blend_over(&mut clear, [0, 1, 2, 3]);
    assert_eq!(clear, [0, 0, 0, 0], "fully transparent source is a no-op");
}

#[test]
fn blend_over_rounds_half_white_to_the_nearest_value() {
    let mut dst = [255, 0, 0, 0];
    blend_over(&mut dst, [128, 255, 255, 255]);
    assert_eq!(dst, [255, 128, 128, 128]);
}

#[test]
fn an_opaque_source_replaces_the_destination() {
    let mut dst = [90, 1, 2, 3];
    blend_over(&mut dst, [255, 7, 8, 9]);
    assert_eq!(dst, [255, 7, 8, 9]);
}

#[test]
fn a_transparent_overlay_leaves_the_base() {
    let base = solid(3, 3, [255, 4, 5, 6]);
    let overlay = solid(3, 3, [0, 200, 200, 200]);
    assert_eq!(composite(&base, &overlay), base);
}

#[test]
fn broken_partners_of_a_composite_are_skipped() {
    let base = solid(2, 2, [255, 1, 1, 1]);
    let broken = Pixmap::new(2, 2, vec![0; 5]);
    assert_eq!(composite(&base, &broken), base);
    assert_eq!(composite(&broken, &base), base);
}

#[test]
fn a_big_overlay_is_scaled_down_to_the_base() {
    let base = solid(2, 2, [255, 0, 0, 0]);
    let overlay = solid(4, 4, [255, 9, 9, 9]);
    let merged = composite(&base, &overlay);
    assert_eq!((merged.width, merged.height), (2, 2));
    assert_eq!(merged.pixel(1, 1), Some([255, 9, 9, 9]));
}

#[test]
fn scaling_to_nothing_gives_an_empty_pixmap() {
    let p = solid(2, 2, [255, 1, 2, 3]);
    assert_eq!(scale_nearest(&p, 0, 4), Pixmap::default());
    let broken = Pixmap::new(2, 2, vec![]);
    assert_eq!(scale_nearest(&broken, 1, 1).data, vec![0, 0, 0, 0]);
}

#[test]
fn rgba_of_a_broken_pixmap_is_none() {
    assert_eq!(Pixmap::new(1, 1, vec![1, 2, 3]).to_rgba(), None);
    let p = Pixmap::from_rgba(1, 1, &[1, 2, 3, 4]);
    assert_eq!(p.data, vec![4, 1, 2, 3]);
}

#[test]
fn png_encoding_is_rgba_in_a_png_container() {
    let p = solid(1, 1, [128, 1, 2, 3]);
    let png = to_png(&p).expect("encodes");
    let back = from_png(&png).expect("decodes");
    assert_eq!(back.data, vec![128, 1, 2, 3]);
}
