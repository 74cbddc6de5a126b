use tile_svg::point_index::PointIndex;

#[test]
fn point_index_packs_contour_and_point() {
    let index = PointIndex::new(0xabc, 0x12345);
    assert_eq!(index.0, 0xabc1_2345);
    assert_eq!(index.contour(), 0xabc);
    assert_eq!(index.point(), 0x12345);
}

#[test]
fn point_index_holds_its_limits() {
    let least = PointIndex::new(0, 0);
    assert_eq!(least.0, 0);
    assert_eq!((least.contour(), least.point()), (0, 0));
    let greatest = PointIndex::new(0xfff, 0x000f_ffff);
    assert_eq!(greatest.0, 0xffff_ffff);
    assert_eq!((greatest.contour(), greatest.point()), (0xfff, 0x000f_ffff));
}

#[test]
fn point_indices_are_ordered_by_contour_then_point() {
    let pairs = [(0u32, 5u32), (0, 6), (1, 0), (1, 0x000f_ffff), (2, 0)];
    for window in pairs.windows(2) {
        let a = PointIndex::new(window[0].0, window[0].1);
        let b = PointIndex::new(window[1].0, window[1].1);
        assert!(a.0 < b.0);
        assert_ne!(a, b);
    }
    assert_eq!(PointIndex::new(3, 4), PointIndex::new(3, 4));
}
