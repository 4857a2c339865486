//! The pyramid cascade builder.
//!
//! Starting from the finest level's tile store, every coarser level is
//! produced by stepping across the previous level's grid in 2x2 groups,
//! padding groups at the mosaic edge with blank tiles, compositing each
//! group onto a double-size canvas and downsampling it back to tile size
//! with the Catmull-Rom filter.

use vstd::prelude::*;

verus! {

use crate::pixels::{
    Raster,
    img_width,
    img_height,
    pix,
    pixel_map,
    clear_pixel,
    is_clear,
    is_tile,
    catmull_resized,
    blank_tile,
    TILE_SIZE,
};
use crate::store::{TileStore, tile_key, grid_keys, lemma_tile_key_injective, lemma_grid_key_elem};
use crate::tiler::column_keys;
use vstd::arithmetic::power2::pow2;

/// The samples of a fully transparent tile.
pub open spec fn blank_pixmap() -> Map<(int, int), (u8, u8, u8, u8)> {
    Map::new(|p: (int, int)| 0 <= p.0 < 256 && 0 <= p.1 < 256, |p: (int, int)| clear_pixel())
}

/// The samples a 2x2 group member contributes: the stored tile's when the
/// position lies on the grid, a blank tile's past the edge.
pub open spec fn neighbor_pixmap(view: Map<u32, Raster>, x: int, y: int, xt: int, yt: int) -> Map<
    (int, int),
    (u8, u8, u8, u8),
> {
    if x < xt && y < yt {
        pixel_map(view[tile_key(x, y)])
    } else {
        blank_pixmap()
    }
}

/// Four tile-sized sample maps composited onto one double-size canvas,
/// each at its quadrant.
pub open spec fn quad_pixmap(
    tl: Map<(int, int), (u8, u8, u8, u8)>,
    tr: Map<(int, int), (u8, u8, u8, u8)>,
    bl: Map<(int, int), (u8, u8, u8, u8)>,
    br: Map<(int, int), (u8, u8, u8, u8)>,
) -> Map<(int, int), (u8, u8, u8, u8)> {
    Map::new(
        |p: (int, int)| 0 <= p.0 < 512 && 0 <= p.1 < 512,
        |p: (int, int)|
            if p.0 < 256 && p.1 < 256 {
                tl[(p.0, p.1)]
            } else if p.1 < 256 {
                tr[(p.0 - 256, p.1)]
            } else if p.0 < 256 {
                bl[(p.0, p.1 - 256)]
            } else {
                br[(p.0 - 256, p.1 - 256)]
            },
    )
}

/// The samples of the tile that merging the 2x2 group with top-left
/// `(x, y)` of an `xt` by `yt` grid yields: the four members composited
/// and downsampled to tile size.
pub open spec fn merged_pixmap(view: Map<u32, Raster>, x: int, y: int, xt: int, yt: int) -> Map<
    (int, int),
    (u8, u8, u8, u8),
> {
    catmull_resized(
        quad_pixmap(
            neighbor_pixmap(view, x, y, xt, yt),
            neighbor_pixmap(view, x + 1, y, xt, yt),
            neighbor_pixmap(view, x, y + 1, xt, yt),
            neighbor_pixmap(view, x + 1, y + 1, xt, yt),
        ),
        512,
        512,
        256,
        256,
    )
}

/// `t` is tile-sized and holds exactly the samples of `m`.
pub open spec fn tile_matches(t: Raster, m: Map<(int, int), (u8, u8, u8, u8)>) -> bool {
    &&& is_tile(t)
    &&& forall|i: int, j: int|
        0 <= i < 256 && 0 <= j < 256 ==> #[trigger] pix(t, i, j) == m[(i, j)]
}

/// Every coordinate of an `xt` by `yt` grid has a tile in the store.
pub open spec fn store_covers_grid(tiles: TileStore, xt: int, yt: int) -> bool {
    forall|tx: int, ty: int|
        0 <= tx < xt && 0 <= ty < yt ==> tiles@.dom().contains(#[trigger] tile_key(tx, ty))
}

/// Every tile of an `xt` by `yt` grid in the store is tile-sized.
pub open spec fn store_tiles_sized(tiles: TileStore, xt: int, yt: int) -> bool {
    forall|tx: int, ty: int|
        0 <= tx < xt && 0 <= ty < yt ==> is_tile(#[trigger] tiles@[tile_key(tx, ty)])
}

/// Fetches the 2x2 merge group whose top-left member is `(x, y)`: the
/// three neighbors are the stored tiles where they lie on the grid and
/// blank tiles where the group sticks out past the last column or row.
pub fn fetch_group(tiles: &TileStore, x: u16, y: u16, x_tiles: u16, y_tiles: u16) -> (g: (
    Raster,
    Raster,
    Raster,
    Raster,
))
    requires
        tiles.wf(),
        x < x_tiles,
        y < y_tiles,
        store_covers_grid(*tiles, x_tiles as int, y_tiles as int),
    ensures
        g.0 == tiles@[tile_key(x as int, y as int)],
        x as int + 1 < x_tiles ==> g.1 == tiles@[tile_key(x as int + 1, y as int)],
        x as int + 1 == x_tiles ==> is_tile(g.1) && is_clear(g.1),
        y as int + 1 < y_tiles ==> g.2 == tiles@[tile_key(x as int, y as int + 1)],
        y as int + 1 == y_tiles ==> is_tile(g.2) && is_clear(g.2),
        x as int + 1 < x_tiles && y as int + 1 < y_tiles ==> g.3 == tiles@[tile_key(
            x as int + 1,
            y as int + 1,
        )],
        x as int + 1 == x_tiles || y as int + 1 == y_tiles ==> is_tile(g.3) && is_clear(g.3),
{
    let top_left = match tiles.get(x, y) {
        Some(t) => t.duplicate(),
        None => vstd::pervasive::unreached(),
    };
    if x + 1 == x_tiles || y + 1 == y_tiles {
        if x + 1 == x_tiles && y + 1 == y_tiles {
            (top_left, blank_tile(), blank_tile(), blank_tile())
        } else if x + 1 == x_tiles {
            let bottom_left = match tiles.get(x, y + 1) {
                Some(t) => t.duplicate(),
                None => vstd::pervasive::unreached(),
            };
            (top_left, blank_tile(), bottom_left, blank_tile())
        } else {
            let top_right = match tiles.get(x + 1, y) {
                Some(t) => t.duplicate(),
                None => vstd::pervasive::unreached(),
            };
            (top_left, top_right, blank_tile(), blank_tile())
        }
    } else {
        let top_right = match tiles.get(x + 1, y) {
            Some(t) => t.duplicate(),
            None => vstd::pervasive::unreached(),
        };
        let bottom_left = match tiles.get(x, y + 1) {
            Some(t) => t.duplicate(),
            None => vstd::pervasive::unreached(),
        };
        let bottom_right = match tiles.get(x + 1, y + 1) {
            Some(t) => t.duplicate(),
            None => vstd::pervasive::unreached(),
        };
        (top_left, top_right, bottom_left, bottom_right)
    }
}

/// Composites four tiles onto a double-size canvas, each at its quadrant:
/// top-left at the origin, top-right beside it, bottom-left below, and
/// bottom-right diagonal.
pub fn composite_quad(tl: &Raster, tr: &Raster, bl: &Raster, br: &Raster) -> (c: Raster)
    requires
        is_tile(*tl),
        is_tile(*tr),
        is_tile(*bl),
        is_tile(*br),
    ensures
        img_width(c) == 512,
        img_height(c) == 512,
        pixel_map(c) == quad_pixmap(pixel_map(*tl), pixel_map(*tr), pixel_map(*bl), pixel_map(*br)),
{
    let mut canvas = Raster::blank(512, 512);
    canvas.paste(tl, 0, 0);
    let ghost c1 = canvas;
    canvas.paste(tr, 256, 0);
    let ghost c2 = canvas;
    canvas.paste(bl, 0, 256);
    let ghost c3 = canvas;
    canvas.paste(br, 256, 256);
    proof {
        let q = quad_pixmap(pixel_map(*tl), pixel_map(*tr), pixel_map(*bl), pixel_map(*br));
        assert forall|i: int, j: int| 0 <= i < 512 && 0 <= j < 512 implies #[trigger] pix(
            canvas,
            i,
            j,
        ) == q[(i, j)] by {
            if i < 256 && j < 256 {
                assert(pix(c1, 0 + i, 0 + j) == pix(*tl, i, j));
                assert(pix(c2, i, j) == pix(c1, i, j));
                assert(pix(c3, i, j) == pix(c2, i, j));
                assert(pix(canvas, i, j) == pix(c3, i, j));
            } else if j < 256 {
                assert(pix(c2, 256 + (i - 256), 0 + j) == pix(*tr, i - 256, j));
                assert(pix(c3, i, j) == pix(c2, i, j));
                assert(pix(canvas, i, j) == pix(c3, i, j));
            } else if i < 256 {
                assert(pix(c3, 0 + i, 256 + (j - 256)) == pix(*bl, i, j - 256));
                assert(pix(canvas, i, j) == pix(c3, i, j));
            } else {
                assert(pix(canvas, 256 + (i - 256), 256 + (j - 256)) == pix(
                    *br,
                    i - 256,
                    j - 256,
                ));
            }
        };
        assert(pixel_map(canvas) =~= quad_pixmap(
            pixel_map(*tl),
            pixel_map(*tr),
            pixel_map(*bl),
            pixel_map(*br),
        ));
    }
    canvas
}

/// Merges the 2x2 group with top-left `(x, y)`: fetches the group,
/// composites it and downsamples the composite to one tile of the next
/// coarser level.
pub fn merge_group(tiles: &TileStore, x: u16, y: u16, x_tiles: u16, y_tiles: u16) -> (t: Raster)
    requires
        tiles.wf(),
        x < x_tiles,
        y < y_tiles,
        store_covers_grid(*tiles, x_tiles as int, y_tiles as int),
        store_tiles_sized(*tiles, x_tiles as int, y_tiles as int),
    ensures
        tile_matches(
            t,
            merged_pixmap(tiles@, x as int, y as int, x_tiles as int, y_tiles as int),
        ),
{
    let (top_left, top_right, bottom_left, bottom_right) = fetch_group(
        tiles,
        x,
        y,
        x_tiles,
        y_tiles,
    );
    proof {
        assert(is_tile(top_left));
        assert(pixel_map(top_left) == neighbor_pixmap(
            tiles@,
            x as int,
            y as int,
            x_tiles as int,
            y_tiles as int,
        ));
        if x as int + 1 == x_tiles {
            assert(pixel_map(top_right) =~= blank_pixmap());
        }
        if y as int + 1 == y_tiles {
            assert(pixel_map(bottom_left) =~= blank_pixmap());
        }
        if x as int + 1 == x_tiles || y as int + 1 == y_tiles {
            assert(pixel_map(bottom_right) =~= blank_pixmap());
        }
    }
    let composite = composite_quad(&top_left, &top_right, &bottom_left, &bottom_right);
    let out = composite.resize_catmull_rom(TILE_SIZE, TILE_SIZE);
    proof {
        assert(pixel_map(composite) == quad_pixmap(
            neighbor_pixmap(tiles@, x as int, y as int, x_tiles as int, y_tiles as int),
            neighbor_pixmap(tiles@, x as int + 1, y as int, x_tiles as int, y_tiles as int),
            neighbor_pixmap(tiles@, x as int, y as int + 1, x_tiles as int, y_tiles as int),
            neighbor_pixmap(tiles@, x as int + 1, y as int + 1, x_tiles as int, y_tiles as int),
        ));
    }
    out
}

/// Builds the next coarser level from one level's full grid: one merged
/// tile per 2x2 group, keyed by the halved grid coordinate, on a grid of
/// ceiling-halved dimensions.
pub fn build_level(tiles: &TileStore, x_tiles: u16, y_tiles: u16) -> (r: TileStore)
    requires
        tiles.wf(),
        1 <= x_tiles,
        1 <= y_tiles,
        store_covers_grid(*tiles, x_tiles as int, y_tiles as int),
        store_tiles_sized(*tiles, x_tiles as int, y_tiles as int),
    ensures
        r.wf(),
        r@.dom() == grid_keys((x_tiles as int + 1) / 2, (y_tiles as int + 1) / 2),
        r.key_seq().len() == ((x_tiles as int + 1) / 2) * ((y_tiles as int + 1) / 2),
        forall|u: int, v: int|
            0 <= u < (x_tiles as int + 1) / 2 && 0 <= v < (y_tiles as int + 1) / 2
                ==> tile_matches(
                #[trigger] r@[tile_key(u, v)],
                merged_pixmap(tiles@, 2 * u, 2 * v, x_tiles as int, y_tiles as int),
            ),
{
    let cx: u32 = (x_tiles as u32 + 1) / 2;
    let cy: u32 = (y_tiles as u32 + 1) / 2;
    let mut out = TileStore::new();
    proof {
        assert(out@.dom() =~= grid_keys(0, cy as int));
        assert(out.key_seq().len() == 0);
        assert((0int + 1) / 2 * (cy as int) == 0) by (nonlinear_arith);
    }
    let mut x: u32 = 0;
    while x < x_tiles as u32
        invariant
            x % 2 == 0,
            x <= x_tiles as u32 + 1,
            1 <= x_tiles,
            1 <= y_tiles,
            cx == (x_tiles as int + 1) / 2,
            cy == (y_tiles as int + 1) / 2,
            tiles.wf(),
            store_covers_grid(*tiles, x_tiles as int, y_tiles as int),
            store_tiles_sized(*tiles, x_tiles as int, y_tiles as int),
            out.wf(),
            out@.dom() == grid_keys((x as int + 1) / 2, cy as int),
            out.key_seq().len() == ((x as int + 1) / 2) * (cy as int),
            forall|u: int, v: int|
                0 <= u < (x as int + 1) / 2 && 0 <= v < cy ==> tile_matches(
                    #[trigger] out@[tile_key(u, v)],
                    merged_pixmap(tiles@, 2 * u, 2 * v, x_tiles as int, y_tiles as int),
                ),
        decreases (if x_tiles as int > x as int {
            x_tiles as int - x as int
        } else {
            0
        }),
    {
        let mut y: u32 = 0;
        proof {
            assert(grid_keys((x as int) / 2, cy as int).union(column_keys((x as int) / 2, 0))
                =~= grid_keys((x as int) / 2, cy as int));
        }
        while y < y_tiles as u32
            invariant
                y % 2 == 0,
                y <= y_tiles as u32 + 1,
                x % 2 == 0,
                x < x_tiles as u32,
                1 <= x_tiles,
                1 <= y_tiles,
                cx == (x_tiles as int + 1) / 2,
                cy == (y_tiles as int + 1) / 2,
                tiles.wf(),
                store_covers_grid(*tiles, x_tiles as int, y_tiles as int),
                store_tiles_sized(*tiles, x_tiles as int, y_tiles as int),
                out.wf(),
                out@.dom() == grid_keys((x as int) / 2, cy as int).union(
                    column_keys((x as int) / 2, (y as int) / 2),
                ),
                out.key_seq().len() == ((x as int) / 2) * (cy as int) + (y as int) / 2,
                forall|u: int, v: int|
                    (0 <= u < (x as int) / 2 && 0 <= v < cy) || (u == (x as int) / 2 && 0 <= v < (
                    y as int) / 2) ==> tile_matches(
                        #[trigger] out@[tile_key(u, v)],
                        merged_pixmap(tiles@, 2 * u, 2 * v, x_tiles as int, y_tiles as int),
                    ),
            decreases (if y_tiles as int > y as int {
                y_tiles as int - y as int
            } else {
                0
            }),
        {
            let t = merge_group(tiles, x as u16, y as u16, x_tiles, y_tiles);
            let ghost pre = out;
            proof {
                lemma_grid_key_elem((x as int) / 2, (y as int) / 2);
                assert(!pre@.dom().contains(tile_key((x as int) / 2, (y as int) / 2)));
            }
            out.insert((x / 2) as u16, (y / 2) as u16, t);
            proof {
                assert(out@.dom() =~= grid_keys((x as int) / 2, cy as int).union(
                    column_keys((x as int) / 2, (y as int) / 2 + 1),
                ));
                assert(2 * ((x as int) / 2) == x as int);
                assert(2 * ((y as int) / 2) == y as int);
                assert forall|u: int, v: int|
                    (0 <= u < (x as int) / 2 && 0 <= v < cy) || (u == (x as int) / 2 && 0 <= v < (
                    y as int) / 2 + 1) implies tile_matches(
                    #[trigger] out@[tile_key(u, v)],
                    merged_pixmap(tiles@, 2 * u, 2 * v, x_tiles as int, y_tiles as int),
                ) by {
                    if u == (x as int) / 2 && v == (y as int) / 2 {
                    } else {
                        if tile_key(u, v) == tile_key((x as int) / 2, (y as int) / 2) {
                            lemma_tile_key_injective(u, v, (x as int) / 2, (y as int) / 2);
                        }
                        assert(out@[tile_key(u, v)] == pre@[tile_key(u, v)]);
                    }
                };
            }
            y = y + 2;
        }
        proof {
            assert((y as int) / 2 == cy as int);
            assert(out@.dom() =~= grid_keys((x as int) / 2 + 1, cy as int)) by {
                assert forall|k: u32| #[trigger]
                    grid_keys((x as int) / 2 + 1, cy as int).contains(k) implies grid_keys(
                    (x as int) / 2,
                    cy as int,
                ).union(column_keys((x as int) / 2, cy as int)).contains(k) by {
                    if (k as int) / 0x10000 == (x as int) / 2 {
                        assert(column_keys((x as int) / 2, cy as int).contains(k));
                    }
                };
            };
            assert(((x as int) / 2 + 1) * (cy as int) == ((x as int) / 2) * (cy as int)
                + cy as int) by (nonlinear_arith);
            assert((x as int + 2 + 1) / 2 == (x as int) / 2 + 1);
        }
        x = x + 2;
    }
    proof {
        assert((x as int + 1) / 2 == cx as int);
    }
    out
}

/// Compositing four fully transparent tiles gives a fully transparent
/// double-size canvas: every sample of the quad of four blank tile maps
/// is the fully transparent sample.
pub proof fn lemma_blank_quad_is_blank(i: int, j: int)
    requires
        0 <= i < 512,
        0 <= j < 512,
    ensures
        quad_pixmap(blank_pixmap(), blank_pixmap(), blank_pixmap(), blank_pixmap())[(i, j)]
            == clear_pixel(),
{
}

/// A grid dimension after `k` ceiling-halving steps.
pub open spec fn iter_half(n: int, k: nat) -> int
    decreases k,
{
    if k == 0 {
        n
    } else {
        (iter_half(n, (k - 1) as nat) + 1) / 2
    }
}

/// Cascade termination: after `k` ceiling-halving steps a grid dimension
/// equals the ceiling of the original divided by `2^k`.
pub proof fn lemma_iter_half_is_ceil_div_pow2(n: int, k: nat)
    requires
        0 <= n,
    ensures
        iter_half(n, k) == crate::zoom::ceil_div(n, pow2(k) as int),
    decreases k,
{
    if k == 0 {
        vstd::arithmetic::power2::lemma2_to64();
    } else {
        lemma_iter_half_is_ceil_div_pow2(n, (k - 1) as nat);
        let p = pow2((k - 1) as nat) as int;
        vstd::arithmetic::power2::lemma_pow2_pos((k - 1) as nat);
        vstd::arithmetic::power2::lemma_pow2_unfold(k);
        let a = n + p - 1;
        assert(a / p + 1 == (p + a) / p) by {
            vstd::arithmetic::div_mod::lemma_div_plus_one(a, p);
        };
        assert(((a + p) / p) / 2 == (a + p) / (p * 2)) by {
            vstd::arithmetic::div_mod::lemma_div_denominator(a + p, p, 2);
        };
        assert(a + p == n + 2 * p - 1);
    }
}

/// One produced zoom level: its zoom index, the placement offset and grid
/// dimensions in tile units, and its tiles keyed by local grid coordinate.
pub struct LevelOutput {
    pub zoom: u8,
    pub png_x: u16,
    pub png_y: u16,
    pub x_tiles: u16,
    pub y_tiles: u16,
    pub tiles: TileStore,
}

/// The tile view level `k` was merged from: the base store for the first
/// produced level, the previously produced level after that.
pub open spec fn source_view(levels: Seq<LevelOutput>, k: int, base: Map<u32, Raster>) -> Map<
    u32,
    Raster,
> {
    if k == 0 {
        base
    } else {
        levels[k - 1].tiles@
    }
}

/// Level `k` of the cascade's output is correct with respect to a base
/// grid of `x0` by `y0` tiles at offset `(px0, py0)`: its zoom index
/// counts down from the finest, its offset and grid dimensions are the
/// base values ceiling-halved `k + 1` times, it holds exactly one tile
/// per grid coordinate, and every tile is the merge of its 2x2 group of
/// the level above.
pub open spec fn level_ok(
    levels: Seq<LevelOutput>,
    k: int,
    base: Map<u32, Raster>,
    x0: int,
    y0: int,
    px0: int,
    py0: int,
    max_zoom: int,
) -> bool {
    let lvl = levels[k];
    &&& lvl.zoom as int == max_zoom - 1 - k
    &&& lvl.x_tiles as int == iter_half(x0, (k + 1) as nat)
    &&& lvl.y_tiles as int == iter_half(y0, (k + 1) as nat)
    &&& lvl.png_x as int == iter_half(px0, (k + 1) as nat)
    &&& lvl.png_y as int == iter_half(py0, (k + 1) as nat)
    &&& lvl.tiles.wf()
    &&& lvl.tiles@.dom() == grid_keys(lvl.x_tiles as int, lvl.y_tiles as int)
    &&& lvl.tiles.key_seq().len() == lvl.x_tiles as int * lvl.y_tiles as int
    &&& forall|u: int, v: int|
        0 <= u < lvl.x_tiles && 0 <= v < lvl.y_tiles ==> tile_matches(
            #[trigger] lvl.tiles@[tile_key(u, v)],
            merged_pixmap(
                source_view(levels, k, base),
                2 * u,
                2 * v,
                iter_half(x0, k as nat),
                iter_half(y0, k as nat),
            ),
        )
}

/// Runs the full cascade: starting from the finest level's store, builds
/// one coarser level per zoom step from `max_zoom - 1` down to
/// `min_zoom`, ceiling-halving the grid dimensions and the placement
/// offset at each step, and returns the produced levels finest first.
pub fn run_cascade(
    base: TileStore,
    x_tiles: u16,
    y_tiles: u16,
    png_x: u16,
    png_y: u16,
    min_zoom: u8,
    max_zoom: u8,
) -> (levels: Vec<LevelOutput>)
    requires
        base.wf(),
        min_zoom <= max_zoom,
        1 <= x_tiles,
        1 <= y_tiles,
        store_covers_grid(base, x_tiles as int, y_tiles as int),
        store_tiles_sized(base, x_tiles as int, y_tiles as int),
    ensures
        levels@.len() == max_zoom as int - min_zoom as int,
        forall|k: int|
            0 <= k < levels@.len() ==> level_ok(
                levels@,
                k,
                base@,
                x_tiles as int,
                y_tiles as int,
                png_x as int,
                png_y as int,
                max_zoom as int,
            ),
{
    let mut levels: Vec<LevelOutput> = Vec::new();
    let mut cxt: u16 = x_tiles;
    let mut cyt: u16 = y_tiles;
    let mut cpx: u16 = png_x;
    let mut cpy: u16 = png_y;
    let mut zoom: u8 = max_zoom;
    while zoom > min_zoom
        invariant
            min_zoom <= zoom <= max_zoom,
            levels@.len() == max_zoom as int - zoom as int,
            base.wf(),
            1 <= x_tiles,
            1 <= y_tiles,
            store_covers_grid(base, x_tiles as int, y_tiles as int),
            store_tiles_sized(base, x_tiles as int, y_tiles as int),
            1 <= cxt,
            1 <= cyt,
            cxt as int == iter_half(x_tiles as int, levels@.len() as nat),
            cyt as int == iter_half(y_tiles as int, levels@.len() as nat),
            cpx as int == iter_half(png_x as int, levels@.len() as nat),
            cpy as int == iter_half(png_y as int, levels@.len() as nat),
            forall|k: int|
                0 <= k < levels@.len() ==> level_ok(
                    levels@,
                    k,
                    base@,
                    x_tiles as int,
                    y_tiles as int,
                    png_x as int,
                    png_y as int,
                    max_zoom as int,
                ),
        decreases zoom as int - min_zoom as int,
    {
        let n = levels.len();
        let built = if n == 0 {
            build_level(&base, cxt, cyt)
        } else {
            let prev = &levels[n - 1];
            proof {
                assert(level_ok(
                    levels@,
                    n as int - 1,
                    base@,
                    x_tiles as int,
                    y_tiles as int,
                    png_x as int,
                    png_y as int,
                    max_zoom as int,
                ));
                assert(prev.x_tiles == cxt && prev.y_tiles == cyt);
                assert(store_covers_grid(prev.tiles, cxt as int, cyt as int)) by {
                    assert forall|tx: int, ty: int|
                        0 <= tx < cxt && 0 <= ty < cyt implies prev.tiles@.dom().contains(
                        #[trigger] tile_key(tx, ty),
                    ) by {
                        lemma_grid_key_elem(tx, ty);
                        assert(grid_keys(cxt as int, cyt as int).contains(tile_key(tx, ty)));
                    };
                };
                assert(store_tiles_sized(prev.tiles, cxt as int, cyt as int));
            }
            build_level(&prev.tiles, cxt, cyt)
        };
        let new_cxt: u16 = ((cxt as u32 + 1) / 2) as u16;
        let new_cyt: u16 = ((cyt as u32 + 1) / 2) as u16;
        let new_cpx: u16 = ((cpx as u32 + 1) / 2) as u16;
        let new_cpy: u16 = ((cpy as u32 + 1) / 2) as u16;
        zoom = zoom - 1;
        let ghost old_levels = levels@;
        levels.push(
            LevelOutput {
                zoom,
                png_x: new_cpx,
                png_y: new_cpy,
                x_tiles: new_cxt,
                y_tiles: new_cyt,
                tiles: built,
            },
        );
        proof {
            assert(iter_half(x_tiles as int, (n + 1) as nat) == (iter_half(
                x_tiles as int,
                n as nat,
            ) + 1) / 2);
            assert(iter_half(y_tiles as int, (n + 1) as nat) == (iter_half(
                y_tiles as int,
                n as nat,
            ) + 1) / 2);
            assert(iter_half(png_x as int, (n + 1) as nat) == (iter_half(
                png_x as int,
                n as nat,
            ) + 1) / 2);
            assert(iter_half(png_y as int, (n + 1) as nat) == (iter_half(
                png_y as int,
                n as nat,
            ) + 1) / 2);
            assert forall|k: int| 0 <= k < levels@.len() implies level_ok(
                levels@,
                k,
                base@,
                x_tiles as int,
                y_tiles as int,
                png_x as int,
                png_y as int,
                max_zoom as int,
            ) by {
                if k < n {
                    assert(level_ok(
                        old_levels,
                        k,
                        base@,
                        x_tiles as int,
                        y_tiles as int,
                        png_x as int,
                        png_y as int,
                        max_zoom as int,
                    ));
                    assert(levels@[k] == old_levels[k]);
                    assert(source_view(levels@, k, base@) == source_view(old_levels, k, base@));
                } else {
                    assert(source_view(levels@, k, base@) == (if n == 0 {
                        base@
                    } else {
                        old_levels[n - 1].tiles@
                    }));
                }
            };
        }
        cxt = new_cxt;
        cyt = new_cyt;
        cpx = new_cpx;
        cpy = new_cpy;
    }
    levels
}

} // verus!
