//! The mosaic size resolver.
//!
//! Given the listing of one source directory — each entry either a whole
//! image covering the mosaic by itself or a sub-image positioned by grid
//! coordinates — computes the total mosaic width and height: a whole
//! image short-circuits with its own dimensions; otherwise the widths of
//! the distinct columns and the heights of the distinct rows are summed,
//! each coordinate counted once.

use vstd::prelude::*;

verus! {

/// One source image of a mosaic, as the directory listing describes it.
#[derive(Clone, Copy, PartialEq, Eq, Structural, Debug)]
pub enum SourceEntry {
    /// A bare image: the whole mosaic.
    Whole { width: u32, height: u32 },
    /// A sub-image positioned at grid coordinate `(x, y)`.
    Positioned { x: u8, y: u8, width: u32, height: u32 },
}

/// The resolved size, continuing from entry `i` with the columns and rows
/// already counted and the sums so far.
pub open spec fn resolve_from(
    entries: Seq<SourceEntry>,
    i: int,
    seen_x: Set<u8>,
    seen_y: Set<u8>,
    w: int,
    h: int,
) -> (int, int)
    decreases entries.len() - i when 0 <= i <= entries.len()
{
    if i >= entries.len() {
        (w, h)
    } else {
        match entries[i] {
            SourceEntry::Whole { width, height } => (width as int, height as int),
            SourceEntry::Positioned { x, y, width, height } => resolve_from(
                entries,
                i + 1,
                seen_x.insert(x),
                seen_y.insert(y),
                w + if seen_x.contains(x) {
                    0
                } else {
                    width as int
                },
                h + if seen_y.contains(y) {
                    0
                } else {
                    height as int
                },
            ),
        }
    }
}

/// The total mosaic width and height a listing resolves to.
pub open spec fn spec_resolve(entries: Seq<SourceEntry>) -> (int, int) {
    resolve_from(entries, 0, Set::empty(), Set::empty(), 0, 0)
}

/// The running sums stay within `u32` range at every step that is
/// reached, continuing from entry `i`.
pub open spec fn sums_fit_from(
    entries: Seq<SourceEntry>,
    i: int,
    seen_x: Set<u8>,
    seen_y: Set<u8>,
    w: int,
    h: int,
) -> bool
    decreases entries.len() - i when 0 <= i <= entries.len()
{
    if i >= entries.len() {
        true
    } else {
        match entries[i] {
            SourceEntry::Whole { .. } => true,
            SourceEntry::Positioned { x, y, width, height } => {
                let w2 = w + if seen_x.contains(x) {
                    0
                } else {
                    width as int
                };
                let h2 = h + if seen_y.contains(y) {
                    0
                } else {
                    height as int
                };
                &&& w2 <= u32::MAX
                &&& h2 <= u32::MAX
                &&& sums_fit_from(entries, i + 1, seen_x.insert(x), seen_y.insert(y), w2, h2)
            },
        }
    }
}

/// The running sums of a listing stay within `u32` range throughout.
pub open spec fn spec_sums_fit(entries: Seq<SourceEntry>) -> bool {
    sums_fit_from(entries, 0, Set::empty(), Set::empty(), 0, 0)
}

/// Whether a coordinate was already counted.
fn seen(v: &Vec<u8>, c: u8) -> (r: bool)
    ensures
        r == v@.contains(c),
{
    let mut i: usize = 0;
    while i < v.len()
        invariant
            i <= v@.len(),
            forall|j: int| 0 <= j < i ==> v@[j] != c,
        decreases v@.len() - i,
    {
        if v[i] == c {
            return true;
        }
        i = i + 1;
    }
    false
}

/// Resolves the total mosaic width and height of a source listing.
pub fn resolve_mosaic_size(entries: &Vec<SourceEntry>) -> (r: (u32, u32))
    requires
        spec_sums_fit(entries@),
    ensures
        r.0 as int == spec_resolve(entries@).0,
        r.1 as int == spec_resolve(entries@).1,
{
    let mut width: u32 = 0;
    let mut height: u32 = 0;
    let mut read_x: Vec<u8> = Vec::new();
    let mut read_y: Vec<u8> = Vec::new();
    let mut i: usize = 0;
    proof {
        assert(Set::new(|b: u8| read_x@.contains(b)) =~= Set::<u8>::empty());
        assert(Set::new(|b: u8| read_y@.contains(b)) =~= Set::<u8>::empty());
    }
    while i < entries.len()
        invariant
            i <= entries@.len(),
            spec_resolve(entries@) == resolve_from(
                entries@,
                i as int,
                Set::new(|b: u8| read_x@.contains(b)),
                Set::new(|b: u8| read_y@.contains(b)),
                width as int,
                height as int,
            ),
            sums_fit_from(
                entries@,
                i as int,
                Set::new(|b: u8| read_x@.contains(b)),
                Set::new(|b: u8| read_y@.contains(b)),
                width as int,
                height as int,
            ),
        decreases entries@.len() - i,
    {
        let ghost sx = Set::new(|b: u8| read_x@.contains(b));
        let ghost sy = Set::new(|b: u8| read_y@.contains(b));
        match *vstd::std_specs::vec::vec_index(entries, i) {
            SourceEntry::Whole { width: w, height: h } => {
                return (w, h);
            },
            SourceEntry::Positioned { x, y, width: w, height: h } => {
                let ghost old_read_x = read_x@;
                let ghost old_read_y = read_y@;
                if !seen(&read_x, x) {
                    read_x.push(x);
                    width = width + w;
                }
                if !seen(&read_y, y) {
                    read_y.push(y);
                    height = height + h;
                }
                proof {
                    assert(Set::new(|b: u8| read_x@.contains(b)) =~= sx.insert(x)) by {
                        if !old_read_x.contains(x) {
                            assert(read_x@ == old_read_x.push(x));
                            assert(forall|b: u8|
                                #[trigger] read_x@.contains(b) <==> old_read_x.contains(b) || b
                                    == x) by {
                                assert(forall|b: u8|
                                    old_read_x.contains(b) ==> read_x@[old_read_x.index_of(b)]
                                        == b);
                                assert(read_x@[read_x@.len() - 1] == x);
                                assert(forall|b: u8| #[trigger]
                                    read_x@.contains(b) ==> {
                                        let q = read_x@.index_of(b);
                                        if q < old_read_x.len() {
                                            old_read_x.contains(b)
                                        } else {
                                            b == x
                                        }
                                    });
                            };
                        }
                    };
                    assert(Set::new(|b: u8| read_y@.contains(b)) =~= sy.insert(y)) by {
                        if !old_read_y.contains(y) {
                            assert(read_y@ == old_read_y.push(y));
                            assert(forall|b: u8|
                                #[trigger] read_y@.contains(b) <==> old_read_y.contains(b) || b
                                    == y) by {
                                assert(forall|b: u8|
                                    old_read_y.contains(b) ==> read_y@[old_read_y.index_of(b)]
                                        == b);
                                assert(read_y@[read_y@.len() - 1] == y);
                                assert(forall|b: u8| #[trigger]
                                    read_y@.contains(b) ==> {
                                        let q = read_y@.index_of(b);
                                        if q < old_read_y.len() {
                                            old_read_y.contains(b)
                                        } else {
                                            b == y
                                        }
                                    });
                            };
                        }
                    };
                }
            },
        }
        i = i + 1;
    }
    (width, height)
}

} // verus!
