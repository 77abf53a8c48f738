use std::collections::HashMap;
use vstd::prelude::*;

use crate::types::CollisionMask;

verus! {

/// An inclusive rectangle of grid cells: columns `x0..=x1`, rows `y0..=y1`.
/// A rectangle whose low corner lies past its high corner covers no cell.
#[derive(Debug, Clone, Copy, PartialEq, Eq, Structural)]
pub struct CellRange {
    pub x0: i32,
    pub y0: i32,
    pub x1: i32,
    pub y1: i32,
}

impl CellRange {
    /// Whether cell `(x, y)` lies in the rectangle.
    pub open spec fn covers(self, x: int, y: int) -> bool {
        self.x0 <= x <= self.x1 && self.y0 <= y <= self.y1
    }
}

/// Whether `x` is a representable cell coordinate.
pub open spec fn in_i32(x: int) -> bool {
    i32::MIN <= x <= i32::MAX
}

/// The hash key of cell `(x, y)` of layer `layer`: the three numbers packed
/// into disjoint bit ranges of a `u128`.
pub open spec fn cell_key(layer: u32, x: int, y: int) -> int {
    layer * 0x1_0000_0000_0000_0000 + (x + 0x8000_0000) * 0x1_0000_0000 + (y + 0x8000_0000)
}

/// Distinct cells of distinct layers have distinct keys.
proof fn lemma_cell_key_injective(l1: u32, x1: int, y1: int, l2: u32, x2: int, y2: int)
    requires
        in_i32(x1),
        in_i32(y1),
        in_i32(x2),
        in_i32(y2),
        cell_key(l1, x1, y1) == cell_key(l2, x2, y2),
    ensures
        l1 == l2,
        x1 == x2,
        y1 == y2,
{
    let a1 = x1 + 0x8000_0000;
    let a2 = x2 + 0x8000_0000;
    let b1 = y1 + 0x8000_0000;
    let b2 = y2 + 0x8000_0000;
    assert(0 <= a1 < 0x1_0000_0000 && 0 <= a2 < 0x1_0000_0000);
    assert(0 <= b1 < 0x1_0000_0000 && 0 <= b2 < 0x1_0000_0000);
    assert(a1 * 0x1_0000_0000 + b1 < 0x1_0000_0000_0000_0000);
    assert(a2 * 0x1_0000_0000 + b2 < 0x1_0000_0000_0000_0000);
    assert(l1 == l2);
    assert(a1 == a2);
}

fn key_of(layer: u32, x: i32, y: i32) -> (k: u128)
    ensures
        k == cell_key(layer, x as int, y as int),
{
    let a: u128 = (x as i64 + 0x8000_0000i64) as u128;
    let b: u128 = (y as i64 + 0x8000_0000i64) as u128;
    (layer as u128) * 0x1_0000_0000_0000_0000u128 + a * 0x1_0000_0000u128 + b
}

/// Whether bit `b` of `mask` is set.
pub open spec fn mask_selects(mask: u32, b: u32) -> bool {
    mask & (1u32 << b) != 0
}

/// A bucket assignment: the indices stored in each cell of each layer.
pub type Buckets = spec_fn(u32, int, int) -> Seq<usize>;

/// The concatenated buckets of row `y`, columns `x0..x_end`.
pub open spec fn row_items(b: Buckets, layer: u32, y: int, x0: int, x_end: int) -> Seq<usize>
    decreases x_end - x0,
{
    if x_end <= x0 {
        Seq::empty()
    } else {
        row_items(b, layer, y, x0, x_end - 1) + b(layer, x_end - 1, y)
    }
}

/// The concatenated rows `r.y0..y_end` of rectangle `r`, row by row.
pub open spec fn rect_items(b: Buckets, layer: u32, r: CellRange, y_end: int) -> Seq<usize>
    decreases y_end - r.y0,
{
    if y_end <= r.y0 {
        Seq::empty()
    } else {
        rect_items(b, layer, r, y_end - 1) + row_items(b, layer, y_end - 1, r.x0 as int, r.x1 + 1)
    }
}

/// What a query of rectangle `r` yields for the layer bits `0..b_end` that
/// `mask` selects, lowest bit first.
pub open spec fn mask_items(b: Buckets, mask: u32, r: CellRange, b_end: int) -> Seq<usize>
    decreases b_end,
{
    if b_end <= 0 {
        Seq::empty()
    } else {
        mask_items(b, mask, r, b_end - 1) + if 0 <= b_end - 1 < 32 && mask_selects(mask, (b_end - 1) as u32) {
            rect_items(b, 1u32 << ((b_end - 1) as u32), r, r.y1 + 1)
        } else {
            Seq::empty()
        }
    }
}

/// The full answer to a query of rectangle `r` with mask `mask`.
pub open spec fn query_items(b: Buckets, mask: u32, r: CellRange) -> Seq<usize> {
    mask_items(b, mask, r, 32)
}

/// Every element of `s` is below `n`.
pub open spec fn all_below(s: Seq<usize>, n: int) -> bool {
    forall|i: int| 0 <= i < s.len() ==> (#[trigger] s[i]) < n
}

/// When every bucket holds only indices below `n`, so does every query.
pub proof fn lemma_query_below(b: Buckets, n: int, mask: u32, r: CellRange)
    requires
        forall|l: u32, x: int, y: int| all_below(#[trigger] b(l, x, y), n),
    ensures
        all_below(query_items(b, mask, r), n),
{
    assert forall|l: u32, y: int, x0: int, x_end: int| all_below(#[trigger] row_items(b, l, y, x0, x_end), n) by {
        lemma_row_below(b, n, l, y, x0, x_end);
    }
    assert forall|l: u32, y_end: int| all_below(#[trigger] rect_items(b, l, r, y_end), n) by {
        lemma_rect_below(b, n, l, r, y_end);
    }
    lemma_mask_below(b, n, mask, r, 32);
}

proof fn lemma_row_below(b: Buckets, n: int, l: u32, y: int, x0: int, x_end: int)
    requires
        forall|l: u32, x: int, y: int| all_below(#[trigger] b(l, x, y), n),
    ensures
        all_below(row_items(b, l, y, x0, x_end), n),
    decreases x_end - x0,
{
    if x_end > x0 {
        lemma_row_below(b, n, l, y, x0, x_end - 1);
        let a = row_items(b, l, y, x0, x_end - 1);
        let c = b(l, x_end - 1, y);
        assert(all_below(c, n));
        assert forall|i: int| 0 <= i < (a + c).len() implies (#[trigger] (a + c)[i]) < n by {
            if i < a.len() {
                assert((a + c)[i] == a[i]);
            } else {
                assert((a + c)[i] == c[i - a.len()]);
            }
        }
    }
}

proof fn lemma_rect_below(b: Buckets, n: int, l: u32, r: CellRange, y_end: int)
    requires
        forall|l: u32, x: int, y: int| all_below(#[trigger] b(l, x, y), n),
    ensures
        all_below(rect_items(b, l, r, y_end), n),
    decreases y_end - r.y0,
{
    if y_end > r.y0 {
        lemma_rect_below(b, n, l, r, y_end - 1);
        lemma_row_below(b, n, l, y_end - 1, r.x0 as int, r.x1 + 1);
        let a = rect_items(b, l, r, y_end - 1);
        let c = row_items(b, l, y_end - 1, r.x0 as int, r.x1 + 1);
        assert forall|i: int| 0 <= i < (a + c).len() implies (#[trigger] (a + c)[i]) < n by {
            if i < a.len() {
                assert((a + c)[i] == a[i]);
            } else {
                assert((a + c)[i] == c[i - a.len()]);
            }
        }
    }
}

proof fn lemma_mask_below(b: Buckets, n: int, mask: u32, r: CellRange, b_end: int)
    requires
        forall|l: u32, y_end: int| all_below(#[trigger] rect_items(b, l, r, y_end), n),
    ensures
        all_below(mask_items(b, mask, r, b_end), n),
    decreases b_end,
{
    if b_end > 0 {
        lemma_mask_below(b, n, mask, r, b_end - 1);
        let a = mask_items(b, mask, r, b_end - 1);
        let c = if 0 <= b_end - 1 < 32 && mask_selects(mask, (b_end - 1) as u32) {
            rect_items(b, 1u32 << ((b_end - 1) as u32), r, r.y1 + 1)
        } else {
            Seq::empty()
        };
        assert(all_below(c, n));
        assert forall|i: int| 0 <= i < (a + c).len() implies (#[trigger] (a + c)[i]) < n by {
            if i < a.len() {
                assert((a + c)[i] == a[i]);
            } else {
                assert((a + c)[i] == c[i - a.len()]);
            }
        }
    }
}

/// A spatial hash grid for broad-phase collision culling in an unbounded 2-D world.
///
/// Indices of hurtboxes are bucketed by *(layer bit, cell)*. A query visits only
/// the cells of the queried rectangle and only the layers selected by a
/// `CollisionMask`. Cells are given as integer coordinates; mapping world
/// positions to cells is up to the caller.
pub struct SpatialHashGrid {
    buckets: HashMap<u128, Vec<usize>>,
}

impl SpatialHashGrid {
    /// The indices stored in cell `(x, y)` of layer `layer`, in insertion order.
    pub closed spec fn bucket(&self, layer: u32, x: int, y: int) -> Seq<usize> {
        let k = cell_key(layer, x, y);
        if in_i32(x) && in_i32(y) && self.buckets@.contains_key(k as u128) {
            self.buckets@[k as u128]@
        } else {
            Seq::empty()
        }
    }

    /// The grid's buckets as a function of layer and cell.
    pub open spec fn buckets_fn(&self) -> spec_fn(u32, int, int) -> Seq<usize> {
        |l: u32, x: int, y: int| self.bucket(l, x, y)
    }

    /// Creates a new, empty grid.
    pub fn new() -> (r: Self)
        ensures
            forall|l: u32, x: int, y: int| #[trigger] r.bucket(l, x, y) == Seq::<usize>::empty(),
    {
        SpatialHashGrid { buckets: HashMap::new() }
    }

    /// Removes all entries.
    pub fn clear(&mut self)
        ensures
            forall|l: u32, x: int, y: int| #[trigger] final(self).bucket(l, x, y) == Seq::<usize>::empty(),
    {
        self.buckets.clear();
    }

    /// Appends `idx` to cell `(x, y)` of layer `layer`.
    fn push_to_cell(&mut self, layer: u32, x: i32, y: i32, idx: usize)
        ensures
            forall|l: u32, xx: int, yy: int| #[trigger] final(self).bucket(l, xx, yy) == if l == layer && xx == x && yy == y {
                old(self).bucket(l, xx, yy).push(idx)
            } else {
                old(self).bucket(l, xx, yy)
            },
    {
        let k = key_of(layer, x, y);
        let ghost pre = self.buckets@;
        let mut v = match self.buckets.remove(&k) {
            Some(v) => v,
            None => Vec::new(),
        };
        let ghost vv = v@;
        v.push(idx);
        self.buckets.insert(k, v);
        proof {
            assert(vv == old(self).bucket(layer, x as int, y as int));
            assert forall|l: u32, xx: int, yy: int| #[trigger] self.bucket(l, xx, yy) == if l == layer && xx == x && yy == y {
                old(self).bucket(l, xx, yy).push(idx)
            } else {
                old(self).bucket(l, xx, yy)
            } by {
                if in_i32(xx) && in_i32(yy) && !(l == layer && xx == x && yy == y) {
                    if cell_key(l, xx, yy) == cell_key(layer, x as int, y as int) {
                        lemma_cell_key_injective(l, xx, yy, layer, x as int, y as int);
                    }
                }
            }
        }
    }

    /// Inserts `idx` (an index into the caller's hurtbox list) into every
    /// cell of `cells` under the given single-bit `layer`.
    pub fn insert(&mut self, layer: u32, cells: CellRange, idx: usize)
        ensures
            forall|l: u32, x: int, y: int| #[trigger] final(self).bucket(l, x, y) == if l == layer && cells.covers(x, y) {
                old(self).bucket(l, x, y).push(idx)
            } else {
                old(self).bucket(l, x, y)
            },
    {
        let mut y: i64 = cells.y0 as i64;
        while y <= cells.y1 as i64
            invariant
                cells.y0 <= y,
                y <= cells.y1 + 1 || y == cells.y0,
                forall|l: u32, xx: int, yy: int| #[trigger] self.bucket(l, xx, yy) == if l == layer && cells.x0 <= xx <= cells.x1 && cells.y0 <= yy < y {
                    old(self).bucket(l, xx, yy).push(idx)
                } else {
                    old(self).bucket(l, xx, yy)
                },
            decreases cells.y1 + 1 - y,
        {
            let mut x: i64 = cells.x0 as i64;
            while x <= cells.x1 as i64
                invariant
                    cells.y0 <= y <= cells.y1,
                    cells.x0 <= x,
                    x <= cells.x1 + 1 || x == cells.x0,
                    forall|l: u32, xx: int, yy: int| #[trigger] self.bucket(l, xx, yy) == if l == layer && ((cells.x0 <= xx <= cells.x1 && cells.y0 <= yy < y) || (yy == y && cells.x0 <= xx < x)) {
                        old(self).bucket(l, xx, yy).push(idx)
                    } else {
                        old(self).bucket(l, xx, yy)
                    },
                decreases cells.x1 + 1 - x,
            {
                self.push_to_cell(layer, x as i32, y as i32, idx);
                x = x + 1;
            }
            y = y + 1;
        }
    }

    /// Appends the bucket of cell `(x, y)` of layer `layer` to `out`.
    fn append_cell(&self, layer: u32, x: i32, y: i32, out: &mut Vec<usize>)
        ensures
            final(out)@ == old(out)@ + self.bucket(layer, x as int, y as int),
    {
        let k = key_of(layer, x, y);
        match self.buckets.get(&k) {
            Some(v) => {
                let mut i: usize = 0;
                while i < v.len()
                    invariant
                        i <= v@.len(),
                        v@ == self.bucket(layer, x as int, y as int),
                        out@ == old(out)@ + v@.take(i as int),
                    decreases v@.len() - i,
                {
                    out.push(v[i]);
                    proof {
                        assert(v@.take(i + 1) =~= v@.take(i as int).push(v@[i as int]));
                    }
                    i = i + 1;
                }
                proof {
                    assert(v@.take(i as int) =~= v@);
                }
            },
            None => {
                assert(old(out)@ + self.bucket(layer, x as int, y as int) =~= old(out)@);
            },
        }
    }

    /// Appends every bucket of rectangle `cells` of layer `layer`, row by row.
    fn append_rect(&self, layer: u32, cells: CellRange, out: &mut Vec<usize>)
        ensures
            final(out)@ == old(out)@ + rect_items(self.buckets_fn(), layer, cells, cells.y1 + 1),
    {
        let mut y: i64 = cells.y0 as i64;
        proof {
            if cells.y0 > cells.y1 + 1 {
                assert(rect_items(self.buckets_fn(), layer, cells, cells.y1 + 1) == Seq::<usize>::empty());
            }
        }
        while y <= cells.y1 as i64
            invariant
                cells.y0 <= y,
                y <= cells.y1 + 1 || y == cells.y0,
                out@ == old(out)@ + rect_items(self.buckets_fn(), layer, cells, y as int),
            decreases cells.y1 + 1 - y,
        {
            let ghost row_start = out@;
            let mut x: i64 = cells.x0 as i64;
            while x <= cells.x1 as i64
                invariant
                    cells.y0 <= y <= cells.y1,
                    cells.x0 <= x,
                    x <= cells.x1 + 1 || x == cells.x0,
                    out@ == row_start + row_items(self.buckets_fn(), layer, y as int, cells.x0 as int, x as int),
                decreases cells.x1 + 1 - x,
            {
                let ghost before = out@;
                self.append_cell(layer, x as i32, y as i32, out);
                proof {
                    assert(before + self.bucket(layer, x as int, y as int) =~= row_start + row_items(self.buckets_fn(), layer, y as int, cells.x0 as int, x + 1));
                }
                x = x + 1;
            }
            proof {
                if x != cells.x1 + 1 {
                    assert(row_items(self.buckets_fn(), layer, y as int, cells.x0 as int, cells.x1 + 1) == Seq::<usize>::empty());
                    assert(row_items(self.buckets_fn(), layer, y as int, cells.x0 as int, x as int) == Seq::<usize>::empty());
                }
                assert(out@ =~= old(out)@ + rect_items(self.buckets_fn(), layer, cells, y + 1));
            }
            y = y + 1;
        }
        proof {
            if y != cells.y1 + 1 {
                assert(rect_items(self.buckets_fn(), layer, cells, y as int) == Seq::<usize>::empty());
            }
        }
    }

    /// Appends to `out` the indices of all hurtboxes that are in a cell of
    /// `cells` and whose layer bit is set in `mask`: lowest layer bit first,
    /// then row by row, then column by column, each cell in insertion order.
    ///
    /// The output may contain **duplicates** when a hurtbox spans multiple
    /// cells; the caller deduplicates before running narrow-phase tests.
    pub fn query(&self, mask: CollisionMask, cells: CellRange, out: &mut Vec<usize>)
        ensures
            final(out)@ == old(out)@ + query_items(self.buckets_fn(), mask.0, cells),
    {
        let mut b: u32 = 0;
        while b < 32
            invariant
                b <= 32,
                out@ == old(out)@ + mask_items(self.buckets_fn(), mask.0, cells, b as int),
            decreases 32 - b,
        {
            let bit: u32 = 1u32 << b;
            let ghost before = out@;
            if mask.0 & bit != 0 {
                self.append_rect(bit, cells, out);
            }
            proof {
                assert(out@ =~= old(out)@ + mask_items(self.buckets_fn(), mask.0, cells, b + 1));
            }
            b = b + 1;
        }
    }
}

} // verus!
