use eclipper::range::{range_response, resolve_range, RangeBound};

#[test]
fn bounded_range_resolves_to_half_open_offsets() {
    assert_eq!(resolve_range(RangeBound::Included(0), RangeBound::Included(99), 250), (0, 100));
    assert_eq!(resolve_range(RangeBound::Excluded(9), RangeBound::Excluded(50), 250), (10, 50));
    assert_eq!(resolve_range(RangeBound::Unbounded, RangeBound::Unbounded, 250), (0, 250));
}

#[test]
fn first_hundred_bytes_come_back_as_partial_content() {
    let data: Vec<u8> = (0..250u8).collect();
    let r = range_response(&data, Some((0, 100)));
    assert_eq!(r.body.len(), 100);
    assert_eq!(r.body, data[0..100].to_vec());
    assert_eq!((r.range_start, r.range_end, r.total), (0, 100, 250));
    assert!(r.partial);
}

#[test]
fn no_range_returns_whole_body_as_full_content() {
    let data: Vec<u8> = (0..250u8).collect();
    let r = range_response(&data, None);
    assert_eq!(r.body, data);
    assert_eq!((r.range_start, r.range_end, r.total), (0, 250, 250));
    assert!(!r.partial);
}

#[test]
fn full_cover_range_is_not_partial() {
    let data: Vec<u8> = vec![5; 40];
    let r = range_response(&data, Some((0, 40)));
    assert_eq!(r.body.len(), 40);
    assert!(!r.partial);
}

#[test]
fn interior_range_slices_exactly() {
    let data: Vec<u8> = (0..100u8).collect();
    let r = range_response(&data, Some((10, 20)));
    assert_eq!(r.body, (10..20u8).collect::<Vec<u8>>());
    assert!(r.partial);
}
