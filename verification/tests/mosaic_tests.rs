use tile_pyramid::mosaic::{resolve_mosaic_size, SourceEntry};

#[test]
fn whole_image_defines_the_mosaic() {
    let entries = vec![SourceEntry::Whole { width: 640, height: 480 }];
    assert_eq!(resolve_mosaic_size(&entries), (640, 480));
}

#[test]
fn empty_listing_resolves_to_zero() {
    let entries: Vec<SourceEntry> = Vec::new();
    assert_eq!(resolve_mosaic_size(&entries), (0, 0));
}

#[test]
fn distinct_columns_and_rows_are_summed() {
    let entries = vec![
        SourceEntry::Positioned { x: 0, y: 0, width: 100, height: 50 },
        SourceEntry::Positioned { x: 1, y: 0, width: 200, height: 60 },
        SourceEntry::Positioned { x: 0, y: 1, width: 100, height: 70 },
    ];
    // Width: column 0 counts 100, column 1 counts 200; row 0 counts 50,
    // row 1 counts 70.  The second entry's row 0 is already counted.
    assert_eq!(resolve_mosaic_size(&entries), (300, 120));
}

#[test]
fn repeated_coordinates_count_once() {
    let entries = vec![
        SourceEntry::Positioned { x: 0, y: 0, width: 100, height: 100 },
        SourceEntry::Positioned { x: 0, y: 0, width: 100, height: 100 },
    ];
    assert_eq!(resolve_mosaic_size(&entries), (100, 100));
}

#[test]
fn whole_image_short_circuits() {
    let entries = vec![
        SourceEntry::Positioned { x: 0, y: 0, width: 100, height: 50 },
        SourceEntry::Whole { width: 10, height: 20 },
        SourceEntry::Positioned { x: 1, y: 1, width: 300, height: 300 },
    ];
    assert_eq!(resolve_mosaic_size(&entries), (10, 20));
}
