use lab::layout::{bytes_to_rgbs, rgbs_to_bytes, ByteLayout};

#[test]
fn rgb_bytes_are_read_as_triples() {
    let bytes = [255u8, 0, 0, 255, 0, 255, 0, 255, 255];
    assert_eq!(
        bytes_to_rgbs(&bytes, ByteLayout::Rgb),
        vec![[255, 0, 0], [255, 0, 255], [0, 255, 255]]
    );
}

#[test]
fn trailing_partial_pixel_is_dropped() {
    let bytes = [1u8, 2, 3, 4, 5, 6, 7, 8];
    assert_eq!(bytes_to_rgbs(&bytes, ByteLayout::Rgb), vec![[1, 2, 3], [4, 5, 6]]);
    assert_eq!(bytes_to_rgbs(&bytes[..2], ByteLayout::Rgb), Vec::<[u8; 3]>::new());
    assert_eq!(bytes_to_rgbs(&[], ByteLayout::Rgba), Vec::<[u8; 3]>::new());
}

#[test]
fn every_layout_is_reordered_to_rgb() {
    let px4 = [1u8, 2, 3, 4, 5, 6, 7, 8];
    let px3 = [1u8, 2, 3, 4, 5, 6];
    assert_eq!(bytes_to_rgbs(&px4, ByteLayout::Rgba), vec![[1, 2, 3], [5, 6, 7]]);
    assert_eq!(bytes_to_rgbs(&px4, ByteLayout::Argb), vec![[2, 3, 4], [6, 7, 8]]);
    assert_eq!(bytes_to_rgbs(&px3, ByteLayout::Bgr), vec![[3, 2, 1], [6, 5, 4]]);
    assert_eq!(bytes_to_rgbs(&px4, ByteLayout::Bgra), vec![[3, 2, 1], [7, 6, 5]]);
    assert_eq!(bytes_to_rgbs(&px4, ByteLayout::Abgr), vec![[4, 3, 2], [8, 7, 6]]);
}

#[test]
fn layout_strides_and_offsets() {
    assert_eq!(ByteLayout::Rgb.stride(), 3);
    assert_eq!(ByteLayout::Abgr.stride(), 4);
    assert_eq!(ByteLayout::Argb.offsets(), [1, 2, 3]);
    assert_eq!(ByteLayout::Bgra.offsets(), [2, 1, 0]);
}

#[test]
fn triples_are_written_as_flat_bytes() {
    let rgbs = [[0u8, 255, 255], [255, 0, 255], [255, 255, 0]];
    assert_eq!(rgbs_to_bytes(&rgbs), vec![0, 255, 255, 255, 0, 255, 255, 255, 0]);
    assert_eq!(rgbs_to_bytes(&[]), Vec::<u8>::new());
}

#[test]
fn bytes_round_trip_through_triples() {
    let bytes: Vec<u8> = (0..31u8).collect();
    let back = rgbs_to_bytes(&bytes_to_rgbs(&bytes, ByteLayout::Rgb));
    assert_eq!(back.as_slice(), &bytes[..30]);
    let rgbs = vec![[9u8, 8, 7], [6, 5, 4]];
    assert_eq!(bytes_to_rgbs(&rgbs_to_bytes(&rgbs), ByteLayout::Rgb), rgbs);
}
