//! The in-memory tile store of one zoom level.
//!
//! A mapping from tile coordinates to pixel buffers, keyed by the two
//! 16-bit coordinates packed into one 32-bit key.  Beside the map it
//! keeps the keys in insertion order, so one level's tiles can be walked
//! deterministically when they are handed out for persisting.

use vstd::prelude::*;

verus! {

use std::collections::HashMap;
use crate::bytes::get_u32_from_two_u16;
use crate::pixels::Raster;

/// The packed map key of tile coordinate `(x, y)`.
pub open spec fn tile_key(x: int, y: int) -> u32 {
    (x * 0x10000 + y) as u32
}

/// Packed keys are unique per coordinate pair.
pub proof fn lemma_tile_key_injective(x1: int, y1: int, x2: int, y2: int)
    requires
        0 <= x1 < 0x10000,
        0 <= y1 < 0x10000,
        0 <= x2 < 0x10000,
        0 <= y2 < 0x10000,
        tile_key(x1, y1) == tile_key(x2, y2),
    ensures
        x1 == x2 && y1 == y2,
{
    assert(x1 * 0x10000 + y1 == x2 * 0x10000 + y2);
}

/// The keys of a full `x_tiles` by `y_tiles` grid.
pub open spec fn grid_keys(x_tiles: int, y_tiles: int) -> Set<u32> {
    Set::new(|k: u32| (k as int) / 0x10000 < x_tiles && (k as int) % 0x10000 < y_tiles)
}

/// A grid key decomposes back into its coordinates.
pub proof fn lemma_grid_key_elem(x: int, y: int)
    requires
        0 <= x < 0x10000,
        0 <= y < 0x10000,
    ensures
        (tile_key(x, y) as int) / 0x10000 == x,
        (tile_key(x, y) as int) % 0x10000 == y,
{
}

/// Tile store of one zoom level: tile coordinate to pixel buffer.
pub struct TileStore {
    keys: Vec<u32>,
    map: HashMap<u32, Raster>,
}

impl View for TileStore {
    type V = Map<u32, Raster>;

    closed spec fn view(&self) -> Map<u32, Raster> {
        self.map@
    }
}

impl TileStore {
    /// The packed keys, in insertion order.
    pub closed spec fn key_seq(&self) -> Seq<u32> {
        self.keys@
    }

    /// The keys listed for walking are exactly the keys of the map, each
    /// listed once.
    pub closed spec fn wf(&self) -> bool {
        &&& self.keys@.no_duplicates()
        &&& forall|k: u32| self.map@.dom().contains(k) <==> self.keys@.contains(k)
        &&& vstd::std_specs::hash::obeys_key_model::<u32>()
        &&& vstd::std_specs::hash::builds_valid_hashers::<std::hash::RandomState>()
    }

    /// An empty store.
    pub fn new() -> (r: TileStore)
        ensures
            r.wf(),
            r@ == Map::<u32, Raster>::empty(),
            r.key_seq() == Seq::<u32>::empty(),
    {
        proof {
            broadcast use vstd::std_specs::hash::group_hash_axioms;

        }
        TileStore { keys: Vec::new(), map: HashMap::new() }
    }

    /// Stores a tile under its coordinate, replacing any tile already
    /// there, and reports whether one was replaced.
    pub fn insert(&mut self, x: u16, y: u16, tile: Raster) -> (replaced: bool)
        requires
            old(self).wf(),
        ensures
            final(self).wf(),
            final(self)@ == old(self)@.insert(tile_key(x as int, y as int), tile),
            replaced == old(self)@.dom().contains(tile_key(x as int, y as int)),
            final(self).key_seq() == if old(self)@.dom().contains(tile_key(x as int, y as int)) {
                old(self).key_seq()
            } else {
                old(self).key_seq().push(tile_key(x as int, y as int))
            },
    {
        proof {
            broadcast use vstd::std_specs::hash::group_hash_axioms;

        }
        let k = get_u32_from_two_u16(x, y);
        let prior = self.map.insert(k, tile);
        match prior {
            Some(_) => {
                proof {
                    assert(self.keys@ == old(self).keys@);
                    assert(self.keys@.no_duplicates());
                    assert(self.map@.dom() =~= old(self).map@.dom());
                    assert(forall|q: u32|
                        self.map@.dom().contains(q) <==> #[trigger] self.keys@.contains(q)) by {
                        assert(forall|q: u32|
                            self.map@.dom().contains(q) <==> old(self).map@.dom().contains(q));
                    };
                }
                true
            },
            None => {
                self.keys.push(k);
                proof {
                    assert(!old(self).keys@.contains(k));
                    assert(self.keys@.no_duplicates()) by {
                        assert(forall|i: int|
                            0 <= i < old(self).keys@.len() ==> #[trigger] old(self).keys@[i] != k);
                        assert(forall|i: int|
                            0 <= i < self.keys@.len() - 1 ==> #[trigger] self.keys@[i] == old(
                                self,
                            ).keys@[i]);
                    };
                    assert(forall|q: u32|
                        self.map@.dom().contains(q) <==> self.keys@.contains(q)) by {
                        assert(forall|q: u32|
                            old(self).keys@.contains(q) ==> #[trigger] self.keys@.contains(q))
                            by {
                            assert(forall|q: u32|
                                old(self).keys@.contains(q) ==> self.keys@[old(
                                    self,
                                ).keys@.index_of(q)] == q);
                        };
                        assert(self.keys@.contains(k)) by {
                            assert(self.keys@[self.keys@.len() - 1] == k);
                        };
                        assert(forall|q: u32| #[trigger]
                            self.keys@.contains(q) ==> old(self).keys@.contains(q) || q == k)
                            by {
                            assert(forall|q: u32|
                                self.keys@.contains(q) ==> {
                                    let i = self.keys@.index_of(q);
                                    if i < old(self).keys@.len() {
                                        old(self).keys@.contains(q)
                                    } else {
                                        q == k
                                    }
                                });
                        };
                    };
                }
                false
            },
        }
    }

    /// The tile stored under a coordinate, if any.
    pub fn get(&self, x: u16, y: u16) -> (r: Option<&Raster>)
        requires
            self.wf(),
        ensures
            match r {
                Some(t) => self@.dom().contains(tile_key(x as int, y as int)) && *t
                    == self@[tile_key(x as int, y as int)],
                None => !self@.dom().contains(tile_key(x as int, y as int)),
            },
    {
        proof {
            broadcast use vstd::std_specs::hash::group_hash_axioms;

        }
        let k = get_u32_from_two_u16(x, y);
        self.map.get(&k)
    }

    /// How many tiles the store holds.
    pub fn count(&self) -> (r: usize)
        ensures
            r == self.key_seq().len(),
    {
        self.keys.len()
    }

    /// The coordinate of the tile at one position of the insertion order.
    pub fn coord_at(&self, i: usize) -> (r: (u16, u16))
        requires
            i < self.key_seq().len(),
        ensures
            tile_key(r.0 as int, r.1 as int) == self.key_seq()[i as int],
    {
        let k = self.keys[i];
        let x = (k >> 16) as u16;
        let y = (k & 0xFFFF) as u16;
        proof {
            assert((((k >> 16) as u16) as int) * 0x10000 + (((k & 0xFFFF) as u16) as int)
                == k as int) by (bit_vector);
        }
        (x, y)
    }

    /// The tile at one position of the insertion order.
    pub fn tile_at(&self, i: usize) -> (r: &Raster)
        requires
            self.wf(),
            i < self.key_seq().len(),
        ensures
            self@.dom().contains(self.key_seq()[i as int]),
            *r == self@[self.key_seq()[i as int]],
    {
        proof {
            broadcast use vstd::std_specs::hash::group_hash_axioms;

            assert(self.keys@.contains(self.keys@[i as int]));
        }
        let k = self.keys[i];
        match self.map.get(&k) {
            Some(t) => t,
            None => vstd::pervasive::unreached(),
        }
    }
}

} // verus!
