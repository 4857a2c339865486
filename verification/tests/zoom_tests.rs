use tile_pyramid::zoom::{calculate_min_max_zoom, combine_zoom_ranges, get_zoom};

#[test]
fn zoom_table_small_counts() {
    assert_eq!(get_zoom(&1), 0);
    assert_eq!(get_zoom(&2), 1);
}

#[test]
fn zoom_table_thresholds() {
    assert_eq!(get_zoom(&3), 2);
    assert_eq!(get_zoom(&5), 2);
    assert_eq!(get_zoom(&6), 3);
    assert_eq!(get_zoom(&9), 3);
    assert_eq!(get_zoom(&10), 4);
    assert_eq!(get_zoom(&17), 4);
    assert_eq!(get_zoom(&18), 5);
    assert_eq!(get_zoom(&33), 5);
    assert_eq!(get_zoom(&34), 6);
}

#[test]
fn small_mosaics_need_no_pyramid() {
    assert_eq!(calculate_min_max_zoom(0), (0, 0));
    assert_eq!(calculate_min_max_zoom(1), (0, 0));
    assert_eq!(calculate_min_max_zoom(256), (0, 0));
    assert_eq!(calculate_min_max_zoom(1000), (0, 0));
    assert_eq!(calculate_min_max_zoom(1024), (0, 0));
}

#[test]
fn five_tile_mosaic_fixed_point() {
    // 1280 pixels is five native tiles: one halving step, both ends of
    // the range from the same table rows.
    assert_eq!(calculate_min_max_zoom(1280), (2, 2));
}

#[test]
fn twelve_tile_mosaic_range() {
    // 3072 pixels is twelve native tiles: counts 12 and 6 are recorded,
    // mapping to indices 4 and 3.
    assert_eq!(calculate_min_max_zoom(3072), (3, 4));
}

#[test]
fn max_zoom_is_monotonic_in_size() {
    let mut prev: u8 = 0;
    let mut size: u32 = 1;
    while size < 2_000_000 {
        let (_, max_zoom) = calculate_min_max_zoom(size);
        assert!(max_zoom >= prev);
        prev = max_zoom;
        size += 777;
    }
}

#[test]
fn combine_prefers_larger_max() {
    assert_eq!(combine_zoom_ranges((2, 5), (1, 6)), (1, 6));
    assert_eq!(combine_zoom_ranges((1, 6), (2, 5)), (1, 6));
}

#[test]
fn combine_equal_max_takes_smaller_min() {
    assert_eq!(combine_zoom_ranges((2, 5), (3, 5)), (2, 5));
    assert_eq!(combine_zoom_ranges((3, 5), (2, 5)), (2, 5));
    assert_eq!(combine_zoom_ranges((3, 5), (3, 5)), (3, 5));
}
