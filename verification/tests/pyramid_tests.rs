use tile_pyramid::cascade::{build_level, fetch_group, merge_group, run_cascade};
use tile_pyramid::pixels::{blank_tile, Raster};
use tile_pyramid::store::TileStore;
use tile_pyramid::tiler::tile_image;

fn solid(w: u32, h: u32, rgba: [u8; 4]) -> Raster {
    let mut data = Vec::with_capacity((w * h * 4) as usize);
    for _ in 0..w * h {
        data.extend_from_slice(&rgba);
    }
    Raster::from_raw(w, h, data).expect("buffer covers the image")
}

fn pixel(r: &Raster, x: u32, y: u32) -> [u8; 4] {
    let (w, _) = r.dims();
    let raw = r.to_raw();
    let i = ((y * w + x) * 4) as usize;
    [raw[i], raw[i + 1], raw[i + 2], raw[i + 3]]
}

fn fully_transparent(r: &Raster) -> bool {
    let (w, h) = r.dims();
    let raw = r.to_raw();
    raw[..(w * h * 4) as usize].iter().all(|b| *b == 0)
}

#[test]
fn store_insert_get_and_walk() {
    let mut store = TileStore::new();
    assert_eq!(store.count(), 0);
    assert!(!store.insert(1, 2, solid(256, 256, [9, 9, 9, 255])));
    assert!(!store.insert(0, 0, blank_tile()));
    assert_eq!(store.count(), 2);
    assert_eq!(store.coord_at(0), (1, 2));
    assert_eq!(store.coord_at(1), (0, 0));
    assert_eq!(pixel(store.tile_at(0), 5, 5), [9, 9, 9, 255]);
    let got = store.get(1, 2).expect("stored tile is there");
    assert_eq!(pixel(got, 0, 0), [9, 9, 9, 255]);
    assert!(store.get(3, 3).is_none());
}

#[test]
fn store_reports_replacement() {
    let mut store = TileStore::new();
    assert!(!store.insert(4, 4, blank_tile()));
    // A second write to the same coordinate is a replacement and is
    // reported as one, while the write still proceeds.
    assert!(store.insert(4, 4, solid(256, 256, [1, 2, 3, 4])));
    assert_eq!(store.count(), 1);
    assert_eq!(pixel(store.get(4, 4).unwrap(), 0, 0), [1, 2, 3, 4]);
}

#[test]
fn base_tiling_covers_the_grid() {
    // A 300 by 300 source needs a 2 by 2 grid of 256-pixel tiles.
    let mut data = Vec::new();
    for y in 0..300u32 {
        for x in 0..300u32 {
            data.extend_from_slice(&[(x % 256) as u8, (y % 200) as u8, 0, 255]);
        }
    }
    let src = Raster::from_raw(300, 300, data).unwrap();
    let (store, x_tiles, y_tiles) = tile_image(&src);
    assert_eq!((x_tiles, y_tiles), (2, 2));
    assert_eq!(store.count(), 4);
    for tx in 0..2u16 {
        for ty in 0..2u16 {
            let t = store.get(tx, ty).expect("grid tile is there");
            assert_eq!(t.dims(), (256, 256));
        }
    }
    // Interior tile samples come from the source unchanged.
    let tl = store.get(0, 0).unwrap();
    assert_eq!(pixel(tl, 10, 20), [10, 20, 0, 255]);
    // The last column's tile holds source samples up to the edge ...
    let tr = store.get(1, 0).unwrap();
    assert_eq!(pixel(tr, 43, 0), [(299u32 % 256) as u8, 0, 0, 255]);
    // ... and fully transparent padding past it.
    assert_eq!(pixel(tr, 44, 0), [0, 0, 0, 0]);
    let br = store.get(1, 1).unwrap();
    assert_eq!(pixel(br, 200, 200), [0, 0, 0, 0]);
}

#[test]
fn exact_multiple_needs_no_padding() {
    let src = solid(512, 256, [7, 8, 9, 255]);
    let (store, x_tiles, y_tiles) = tile_image(&src);
    assert_eq!((x_tiles, y_tiles), (2, 1));
    assert_eq!(store.count(), 2);
    assert_eq!(pixel(store.get(1, 0).unwrap(), 255, 255), [7, 8, 9, 255]);
}

#[test]
fn merging_blank_tiles_stays_blank() {
    // A single blank tile: its three group neighbors are substituted
    // blanks, and the downsampled merge is fully transparent again.
    let mut store = TileStore::new();
    store.insert(0, 0, blank_tile());
    let merged = merge_group(&store, 0, 0, 1, 1);
    assert_eq!(merged.dims(), (256, 256));
    assert!(fully_transparent(&merged));
}

#[test]
fn merging_four_blank_tiles_stays_blank() {
    let mut store = TileStore::new();
    for x in 0..2u16 {
        for y in 0..2u16 {
            store.insert(x, y, blank_tile());
        }
    }
    let merged = merge_group(&store, 0, 0, 2, 2);
    assert_eq!(merged.dims(), (256, 256));
    assert!(fully_transparent(&merged));
}

#[test]
fn merging_solid_tiles_keeps_the_color() {
    let mut store = TileStore::new();
    for x in 0..2u16 {
        for y in 0..2u16 {
            store.insert(x, y, solid(256, 256, [255, 255, 255, 255]));
        }
    }
    let merged = merge_group(&store, 0, 0, 2, 2);
    assert_eq!(merged.dims(), (256, 256));
    assert_eq!(pixel(&merged, 0, 0), [255, 255, 255, 255]);
    assert_eq!(pixel(&merged, 128, 128), [255, 255, 255, 255]);
    assert_eq!(pixel(&merged, 255, 255), [255, 255, 255, 255]);
}

fn three_by_three_store() -> TileStore {
    let mut store = TileStore::new();
    for x in 0..3u16 {
        for y in 0..3u16 {
            store.insert(
                x,
                y,
                solid(256, 256, [(40 * x + 5) as u8, (40 * y + 5) as u8, 0, 255]),
            );
        }
    }
    store
}

#[test]
fn last_column_group_substitutes_blanks() {
    // Top-left at the last column but not the last row: the top-right
    // and bottom-right members are blanks, the bottom-left is real.
    let store = three_by_three_store();
    let (tl, tr, bl, br) = fetch_group(&store, 2, 0, 3, 3);
    assert_eq!(pixel(&tl, 7, 7), [85, 5, 0, 255]);
    assert!(fully_transparent(&tr));
    assert_eq!(pixel(&bl, 7, 7), [85, 45, 0, 255]);
    assert!(fully_transparent(&br));
}

#[test]
fn last_row_group_substitutes_blanks() {
    let store = three_by_three_store();
    let (tl, tr, bl, br) = fetch_group(&store, 0, 2, 3, 3);
    assert_eq!(pixel(&tl, 7, 7), [5, 85, 0, 255]);
    assert_eq!(pixel(&tr, 7, 7), [45, 85, 0, 255]);
    assert!(fully_transparent(&bl));
    assert!(fully_transparent(&br));
}

#[test]
fn corner_group_substitutes_all_three() {
    let store = three_by_three_store();
    let (tl, tr, bl, br) = fetch_group(&store, 2, 2, 3, 3);
    assert_eq!(pixel(&tl, 7, 7), [85, 85, 0, 255]);
    assert!(fully_transparent(&tr));
    assert!(fully_transparent(&bl));
    assert!(fully_transparent(&br));
}

#[test]
fn one_level_halves_the_grid() {
    let store = three_by_three_store();
    let next = build_level(&store, 3, 3);
    assert_eq!(next.count(), 4);
    assert!(next.get(0, 0).is_some());
    assert!(next.get(1, 1).is_some());
    assert!(next.get(2, 0).is_none());
}

#[test]
fn cascade_dimensions_halve_per_level() {
    // A 5 by 3 base grid cascaded over two zoom steps: the grid goes to
    // 3 by 2, then 2 by 1.
    let mut store = TileStore::new();
    for x in 0..5u16 {
        for y in 0..3u16 {
            store.insert(x, y, blank_tile());
        }
    }
    let levels = run_cascade(store, 5, 3, 0, 0, 0, 2);
    assert_eq!(levels.len(), 2);
    assert_eq!(levels[0].zoom, 1);
    assert_eq!((levels[0].x_tiles, levels[0].y_tiles), (3, 2));
    assert_eq!(levels[0].tiles.count(), 6);
    assert_eq!(levels[1].zoom, 0);
    assert_eq!((levels[1].x_tiles, levels[1].y_tiles), (2, 1));
    assert_eq!(levels[1].tiles.count(), 2);
}

#[test]
fn cascade_halves_the_placement_offset() {
    let mut store = TileStore::new();
    store.insert(0, 0, blank_tile());
    let levels = run_cascade(store, 1, 1, 5, 7, 0, 2);
    assert_eq!(levels.len(), 2);
    assert_eq!((levels[0].png_x, levels[0].png_y), (3, 4));
    assert_eq!((levels[1].png_x, levels[1].png_y), (2, 2));
}
