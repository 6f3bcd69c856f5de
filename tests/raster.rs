use raytracer::raster::pixel_at;

#[test]
fn first_pixel_is_top_left() {
    assert_eq!(pixel_at(4, 3, 0), (0, 2));
}

#[test]
fn rows_go_down_columns_go_right() {
    assert_eq!(pixel_at(4, 3, 1), (1, 2));
    assert_eq!(pixel_at(4, 3, 4), (0, 1));
    assert_eq!(pixel_at(4, 3, 5), (1, 1));
    assert_eq!(pixel_at(4, 3, 11), (3, 0));
}

#[test]
fn every_pixel_once() {
    let (w, h) = (5u32, 4u32);
    let mut seen = vec![false; (w * h) as usize];
    for i in 0..(w * h) as u64 {
        let (c, r) = pixel_at(w, h, i);
        assert!(c < w && r < h);
        let slot = (r * w + c) as usize;
        assert!(!seen[slot]);
        seen[slot] = true;
    }
    assert!(seen.iter().all(|s| *s));
}

#[test]
fn largest_image() {
    assert_eq!(pixel_at(u32::MAX, u32::MAX, 0), (0, u32::MAX - 1));
    let last = u32::MAX as u64 * u32::MAX as u64 - 1;
    assert_eq!(pixel_at(u32::MAX, u32::MAX, last), (u32::MAX - 1, 0));
}
