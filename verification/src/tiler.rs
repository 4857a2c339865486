//! The base-level tiler.
//!
//! Slices one decoded source image into the finest zoom level's grid of
//! fixed-size tiles: `ceil(width / 256)` columns by `ceil(height / 256)`
//! rows, every tile exactly 256 by 256, with the region past the source
//! edge padded fully transparent.

use vstd::prelude::*;

verus! {

use crate::pixels::{Raster, img_width, img_height, pix, clear_pixel, is_tile, TILE_SIZE};
use crate::store::{TileStore, tile_key, grid_keys, lemma_tile_key_injective, lemma_grid_key_elem};
use crate::zoom::ceil_div;

/// The sample a base-level tile at grid position `(tx, ty)` holds at its
/// local position `(i, j)`: the source sample under it, or a fully
/// transparent one past the source edge.
pub open spec fn base_tile_pix(src: Raster, tx: int, ty: int, i: int, j: int) -> (
    u8,
    u8,
    u8,
    u8,
) {
    if tx * 256 + i < img_width(src) && ty * 256 + j < img_height(src) {
        pix(src, tx * 256 + i, ty * 256 + j)
    } else {
        clear_pixel()
    }
}

/// `t` is exactly the base-level tile of `src` at grid position
/// `(tx, ty)`: tile-sized, source samples inside, transparent padding out.
pub open spec fn is_base_tile(t: Raster, src: Raster, tx: int, ty: int) -> bool {
    &&& is_tile(t)
    &&& forall|i: int, j: int|
        0 <= i < 256 && 0 <= j < 256 ==> #[trigger] pix(t, i, j) == base_tile_pix(src, tx, ty, i, j)
}

/// The keys of one grid column `x` up to row `y`.
pub open spec fn column_keys(x: int, y: int) -> Set<u32> {
    Set::new(|k: u32| (k as int) / 0x10000 == x && (k as int) % 0x10000 < y)
}

/// Slices a source image into the finest level's tiles, keyed by their
/// local grid coordinate, and returns the store together with the grid
/// dimensions.
pub fn tile_image(src: &Raster) -> (r: (TileStore, u16, u16))
    requires
        img_width(*src) <= 0xFFFF00,
        img_height(*src) <= 0xFFFF00,
    ensures
        r.1 as int == ceil_div(img_width(*src) as int, 256),
        r.2 as int == ceil_div(img_height(*src) as int, 256),
        r.0.wf(),
        r.0@.dom() == grid_keys(r.1 as int, r.2 as int),
        r.0.key_seq().len() == r.1 as int * r.2 as int,
        forall|tx: int, ty: int|
            0 <= tx < r.1 && 0 <= ty < r.2 ==> is_base_tile(
                #[trigger] r.0@[tile_key(tx, ty)],
                *src,
                tx,
                ty,
            ),
{
    let (w, h) = src.dims();
    let x_tiles = ((w + 255) / 256) as u16;
    let y_tiles = ((h + 255) / 256) as u16;
    let mut store = TileStore::new();
    proof {
        assert(store@.dom() =~= grid_keys(0, y_tiles as int));
    }
    let mut x: u16 = 0;
    while x < x_tiles
        invariant
            x <= x_tiles,
            w == img_width(*src),
            h == img_height(*src),
            w <= 0xFFFF00,
            h <= 0xFFFF00,
            x_tiles as int == ceil_div(w as int, 256),
            y_tiles as int == ceil_div(h as int, 256),
            store.wf(),
            store@.dom() == grid_keys(x as int, y_tiles as int),
            store.key_seq().len() == x as int * y_tiles as int,
            forall|tx: int, ty: int|
                0 <= tx < x && 0 <= ty < y_tiles ==> is_base_tile(
                    #[trigger] store@[tile_key(tx, ty)],
                    *src,
                    tx,
                    ty,
                ),
        decreases x_tiles - x,
    {
        let mut y: u16 = 0;
        proof {
            assert(grid_keys(x as int, y_tiles as int).union(column_keys(x as int, 0))
                =~= grid_keys(x as int, y_tiles as int));
        }
        while y < y_tiles
            invariant
                y <= y_tiles,
                x < x_tiles,
                w == img_width(*src),
                h == img_height(*src),
                w <= 0xFFFF00,
                h <= 0xFFFF00,
                x_tiles as int == ceil_div(w as int, 256),
                y_tiles as int == ceil_div(h as int, 256),
                store.wf(),
                store@.dom() == grid_keys(x as int, y_tiles as int).union(
                    column_keys(x as int, y as int),
                ),
                store.key_seq().len() == x as int * y_tiles as int + y as int,
                forall|tx: int, ty: int|
                    (0 <= tx < x && 0 <= ty < y_tiles) || (tx == x && 0 <= ty < y)
                        ==> is_base_tile(#[trigger] store@[tile_key(tx, ty)], *src, tx, ty),
            decreases y_tiles - y,
        {
            proof {
                assert(256 * (x_tiles as int) <= w + 255);
                assert(256 * (y_tiles as int) <= h + 255);
            }
            let cropped = src.crop((x as u32) * 256, (y as u32) * 256, 256, 256);
            let ghost cw = img_width(cropped) as int;
            let ghost ch = img_height(cropped) as int;
            let tile = if x + 1 == x_tiles || y + 1 == y_tiles {
                let mut canvas = Raster::blank(TILE_SIZE, TILE_SIZE);
                canvas.paste(&cropped, 0, 0);
                proof {
                    assert forall|i: int, j: int|
                        0 <= i < 256 && 0 <= j < 256 implies #[trigger] pix(canvas, i, j)
                        == base_tile_pix(*src, x as int, y as int, i, j) by {
                        if i < cw && j < ch {
                            assert(pix(canvas, 0 + i, 0 + j) == pix(cropped, i, j));
                            assert(pix(cropped, i, j) == pix(
                                *src,
                                (x as u32 * 256) + i,
                                (y as u32 * 256) + j,
                            ));
                            assert(x as int * 256 + i < w);
                            assert(y as int * 256 + j < h);
                        } else {
                            assert(pix(canvas, i, j) == clear_pixel());
                            if i >= cw {
                                assert(cw == w - x as int * 256);
                                assert(x as int * 256 + i >= w);
                            } else {
                                assert(ch == h - y as int * 256);
                                assert(y as int * 256 + j >= h);
                            }
                        }
                    };
                    assert(is_base_tile(canvas, *src, x as int, y as int));
                }
                canvas
            } else {
                proof {
                    assert(256 * (x as int + 1) <= 256 * (x_tiles as int - 1));
                    assert(256 * (y as int + 1) <= 256 * (y_tiles as int - 1));
                    assert(cw == 256 && ch == 256);
                    assert forall|i: int, j: int|
                        0 <= i < 256 && 0 <= j < 256 implies #[trigger] pix(cropped, i, j)
                        == base_tile_pix(*src, x as int, y as int, i, j) by {
                        assert(pix(cropped, i, j) == pix(
                            *src,
                            (x as u32 * 256) + i,
                            (y as u32 * 256) + j,
                        ));
                        assert(x as int * 256 + i < w);
                        assert(y as int * 256 + j < h);
                    };
                    assert(is_base_tile(cropped, *src, x as int, y as int));
                }
                cropped
            };
            let ghost pre = store;
            proof {
                assert(!pre@.dom().contains(tile_key(x as int, y as int))) by {
                    lemma_grid_key_elem(x as int, y as int);
                };
            }
            store.insert(x, y, tile);
            proof {
                assert(store@.dom() =~= grid_keys(x as int, y_tiles as int).union(
                    column_keys(x as int, y as int + 1),
                ));
                assert forall|tx: int, ty: int|
                    (0 <= tx < x && 0 <= ty < y_tiles) || (tx == x && 0 <= ty < y
                        + 1) implies is_base_tile(
                    #[trigger] store@[tile_key(tx, ty)],
                    *src,
                    tx,
                    ty,
                ) by {
                    if tx == x as int && ty == y as int {
                    } else {
                        if tile_key(tx, ty) == tile_key(x as int, y as int) {
                            lemma_tile_key_injective(tx, ty, x as int, y as int);
                        }
                        assert(store@[tile_key(tx, ty)] == pre@[tile_key(tx, ty)]);
                    }
                };
            }
            y = y + 1;
        }
        proof {
            assert(store@.dom() =~= grid_keys(x as int + 1, y_tiles as int)) by {
                assert forall|k: u32| #[trigger]
                    grid_keys(x as int + 1, y_tiles as int).contains(k) implies grid_keys(
                    x as int,
                    y_tiles as int,
                ).union(column_keys(x as int, y_tiles as int)).contains(k) by {
                    if (k as int) / 0x10000 == x as int {
                        assert(column_keys(x as int, y_tiles as int).contains(k));
                    }
                };
            };
            assert((x as int + 1) * y_tiles as int == x as int * y_tiles as int + y_tiles as int)
                by (nonlinear_arith);
        }
        x = x + 1;
    }
    (store, x_tiles, y_tiles)
}

} // verus!
