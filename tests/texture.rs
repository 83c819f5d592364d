use raytracer::{Color, ImageTexture, Isotropic};

fn two_by_two() -> ImageTexture {
    let bytes = vec![1, 2, 3, 4, 5, 6, 7, 8, 9, 10, 11, 12];
    ImageTexture::from_rgb8(bytes, 2, 2).unwrap()
}

#[test]
fn texel_indexes_rows_and_columns() {
    let t = two_by_two();
    assert_eq!(t.texel(0, 0), Color(1, 2, 3));
    assert_eq!(t.texel(1, 0), Color(4, 5, 6));
    assert_eq!(t.texel(0, 1), Color(7, 8, 9));
    assert_eq!(t.texel(1, 1), Color(10, 11, 12));
}

#[test]
fn texel_clamps_into_the_image() {
    let t = two_by_two();
    assert_eq!(t.texel(5, 0), Color(4, 5, 6));
    assert_eq!(t.texel(0, 9), Color(7, 8, 9));
    assert_eq!(t.texel(u32::MAX, u32::MAX), Color(10, 11, 12));
}

#[test]
fn from_rgb8_rejects_bad_sizes() {
    assert!(ImageTexture::from_rgb8(vec![], 0, 0).is_none());
    assert!(ImageTexture::from_rgb8(vec![0; 3], 1, 0).is_none());
    assert!(ImageTexture::from_rgb8(vec![0; 5], 1, 2).is_none());
    assert!(ImageTexture::from_rgb8(vec![0; 6], 1, 2).is_some());
    assert!(ImageTexture::from_rgb8(vec![0; 3], 70_000, 70_000).is_none());
}

#[test]
fn clone_keeps_pixels() {
    let t = two_by_two().clone();
    assert_eq!(t.texel(1, 1), Color(10, 11, 12));
}

#[test]
fn isotropic_keeps_its_texture() {
    let m = Isotropic::new(two_by_two());
    assert_eq!(m.texture().texel(0, 1), Color(7, 8, 9));
    let n = Isotropic::new(42u32);
    assert_eq!(*n.texture(), 42);
}

#[test]
fn dimensions_are_reported() {
    assert_eq!(two_by_two().dimensions(), (2, 2));
    let wide = ImageTexture::from_rgb8(vec![0; 3 * 5 * 2], 5, 2).unwrap();
    assert_eq!(wide.dimensions(), (5, 2));
    assert_eq!(wide.texel(4, 1), Color(0, 0, 0));
}
