//! The histogram grid: width × height unsigned 16-bit counters, row-major,
//! index = x + y·width. Counters saturate at the 16-bit maximum and never
//! wrap. Merging two grids adds them element-wise with saturation; the merge
//! is commutative and associative, so the order in which worker results are
//! combined does not matter.

use vstd::prelude::*;

verus! {

/// Saturating addition of two 16-bit counters: the mathematical sum, clamped
/// to the largest representable value.
pub open spec fn sat_add(a: u16, b: u16) -> u16 {
    if a + b > u16::MAX {
        u16::MAX
    } else {
        (a + b) as u16
    }
}

/// Element-wise saturating sum of two equally long counter sequences.
pub open spec fn merged(a: Seq<u16>, b: Seq<u16>) -> Seq<u16>
    recommends
        a.len() == b.len(),
{
    Seq::new(a.len(), |i: int| sat_add(a[i], b[i]))
}

/// Saturating addition clamps at the 16-bit maximum and never decreases
/// either argument: a counter incremented past the maximum stays at the
/// maximum and never wraps to zero.
pub proof fn lemma_saturation(a: u16, b: u16)
    ensures
        sat_add(a, b) <= u16::MAX,
        a == u16::MAX ==> sat_add(a, b) == u16::MAX,
        sat_add(a, b) >= a,
        sat_add(a, b) >= b,
{
}

/// Saturating addition is commutative, so merging two histograms gives the
/// same grid whichever of the two is the accumulator.
pub proof fn lemma_merge_commutes(a: Seq<u16>, b: Seq<u16>)
    requires
        a.len() == b.len(),
    ensures
        merged(a, b) == merged(b, a),
{
    assert(merged(a, b) =~= merged(b, a));
}

/// Saturating addition is associative, so a fold of merges may be
/// re-bracketed freely.
pub proof fn lemma_merge_associative(a: Seq<u16>, b: Seq<u16>, c: Seq<u16>)
    requires
        a.len() == b.len(),
        b.len() == c.len(),
    ensures
        merged(merged(a, b), c) == merged(a, merged(b, c)),
{
    assert(merged(merged(a, b), c) =~= merged(a, merged(b, c)));
}

/// Merging three worker grids in any of the six orders yields the identical
/// result: the combined image is independent of worker completion order.
pub proof fn lemma_merge_order_independent(a: Seq<u16>, b: Seq<u16>, c: Seq<u16>)
    requires
        a.len() == b.len(),
        b.len() == c.len(),
    ensures
        merged(merged(a, b), c) == merged(merged(b, a), c),
        merged(merged(a, b), c) == merged(merged(a, c), b),
        merged(merged(a, b), c) == merged(merged(c, a), b),
        merged(merged(a, b), c) == merged(merged(b, c), a),
        merged(merged(a, b), c) == merged(merged(c, b), a),
{
    assert(merged(merged(a, b), c) =~= merged(merged(b, a), c));
    assert(merged(merged(a, b), c) =~= merged(merged(a, c), b));
    assert(merged(merged(a, b), c) =~= merged(merged(c, a), b));
    assert(merged(merged(a, b), c) =~= merged(merged(b, c), a));
    assert(merged(merged(a, b), c) =~= merged(merged(c, b), a));
}

/// A dense grid of saturating 16-bit counters, owned by one worker while it
/// accumulates and read-only once handed to the merge step.
pub struct Histogram {
    width: usize,
    height: usize,
    cells: Vec<u16>,
}

impl View for Histogram {
    type V = Seq<u16>;

    closed spec fn view(&self) -> Seq<u16> {
        self.cells@
    }
}

impl Histogram {
    pub closed spec fn spec_width(self) -> nat {
        self.width as nat
    }

    pub closed spec fn spec_height(self) -> nat {
        self.height as nat
    }

    /// The grid holds exactly one counter per pixel.
    pub open spec fn wf(self) -> bool {
        self@.len() == self.spec_width() * self.spec_height()
    }

    /// A fresh grid of the given dimensions, every counter zero.
    pub fn new(width: usize, height: usize) -> (h: Histogram)
        requires
            width * height <= usize::MAX,
        ensures
            h.wf(),
            h.spec_width() == width,
            h.spec_height() == height,
            forall|i: int| 0 <= i < h@.len() ==> h@[i] == 0u16,
    {
        let n: usize = width * height;
        let mut cells: Vec<u16> = Vec::new();
        let mut i: usize = 0;
        while i < n
            invariant
                i <= n,
                cells@.len() == i,
                forall|j: int| 0 <= j < i ==> cells@[j] == 0u16,
            decreases n - i,
        {
            cells.push(0u16);
            i = i + 1;
        }
        Histogram { width, height, cells }
    }

    pub fn width(&self) -> (w: usize)
        ensures
            w == self.spec_width(),
    {
        self.width
    }

    pub fn height(&self) -> (h: usize)
        ensures
            h == self.spec_height(),
    {
        self.height
    }

    /// Read one counter.
    pub fn cell(&self, x: usize, y: usize) -> (c: u16)
        requires
            self.wf(),
            x < self.spec_width(),
            y < self.spec_height(),
        ensures
            c == self@[x + y * self.spec_width()],
    {
        proof {
            lemma_cell_index_in_range(x as int, y as int, self.spec_width() as int, self.spec_height() as int);
        }
        let n: usize = self.cells.len();
        assert(x + y * self.spec_width() < n);
        let idx: usize = x + y * self.width;
        self.cells[idx]
    }

    /// Read one counter by its row-major index.
    pub fn counter(&self, i: usize) -> (c: u16)
        requires
            i < self@.len(),
        ensures
            c == self@[i as int],
    {
        self.cells[i]
    }

    /// The number of counters in the grid.
    pub fn len(&self) -> (n: usize)
        ensures
            n == self@.len(),
    {
        self.cells.len()
    }

    /// Bump the counter at (x, y) by one, saturating at the 16-bit maximum.
    /// Coordinates outside the grid are dropped silently: the grid is
    /// unchanged. Every counter is non-decreasing across the call.
    pub fn record(&mut self, x: usize, y: usize)
        requires
            old(self).wf(),
        ensures
            final(self).wf(),
            final(self).spec_width() == old(self).spec_width(),
            final(self).spec_height() == old(self).spec_height(),
            x < old(self).spec_width() && y < old(self).spec_height() ==> final(self)@
                == old(self)@.update(
                x + y * old(self).spec_width(),
                sat_add(old(self)@[x + y * old(self).spec_width()], 1),
            ),
            !(x < old(self).spec_width() && y < old(self).spec_height()) ==> final(self)@ == old(
                self,
            )@,
    {
        if x < self.width && y < self.height {
            proof {
                lemma_cell_index_in_range(x as int, y as int, self.spec_width() as int, self.spec_height() as int);
            }
            let n: usize = self.cells.len();
            assert(x + y * self.spec_width() < n);
            let idx: usize = x + y * self.width;
            let bumped: u16 = self.cells[idx].saturating_add(1);
            self.cells.set(idx, bumped);
        }
    }

    /// Element-wise saturating sum of another grid of the same dimensions
    /// into this one.
    pub fn merge(&mut self, other: &Histogram)
        requires
            old(self).wf(),
            other.wf(),
            old(self).spec_width() == other.spec_width(),
            old(self).spec_height() == other.spec_height(),
        ensures
            final(self).wf(),
            final(self).spec_width() == old(self).spec_width(),
            final(self).spec_height() == old(self).spec_height(),
            final(self)@ == merged(old(self)@, other@),
    {
        let n: usize = self.cells.len();
        let mut i: usize = 0;
        while i < n
            invariant
                i <= n,
                n == self.cells@.len(),
                self.cells@.len() == old(self)@.len(),
                other@.len() == old(self)@.len(),
                self.width == old(self).spec_width(),
                self.height == old(self).spec_height(),
                forall|j: int| 0 <= j < i ==> self.cells@[j] == sat_add(old(self)@[j], other@[j]),
                forall|j: int| i <= j < n ==> self.cells@[j] == old(self)@[j],
            decreases n - i,
        {
            let summed: u16 = self.cells[i].saturating_add(other.cells[i]);
            self.cells.set(i, summed);
            i = i + 1;
        }
        assert(self@ =~= merged(old(self)@, other@));
    }
}

/// Row-major indexing stays inside the grid: x + y·width < width·height
/// whenever x < width and y < height.
pub proof fn lemma_cell_index_in_range(x: int, y: int, width: int, height: int)
    requires
        0 <= x < width,
        0 <= y < height,
    ensures
        0 <= x + y * width < width * height,
{
    assert(x + y * width < width * height) by (nonlinear_arith)
        requires
            0 <= x < width,
            0 <= y < height,
    ;
}

} // verus!
