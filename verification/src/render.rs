//! The render rules around the histogram: the immutable run configuration,
//! the even partition of the iteration budget across workers, the Buddhabrot
//! accumulation rule for one sample's escape path, and the rescale of the
//! summed 16-bit grid to 8-bit grayscale.

use vstd::prelude::*;

use crate::histogram::Histogram;
use crate::histogram::merged;
use crate::histogram::sat_add;

verus! {

/// The integer-valued part of a render run's configuration: grid dimensions,
/// the per-pixel output divisor, the total sample budget and the step cap
/// per sample. Immutable once built; copied to every worker.
#[derive(Clone, Copy)]
pub struct RenderConfig {
    pub width: usize,
    pub height: usize,
    pub div: u16,
    pub iters: usize,
    pub steps: usize,
}

impl RenderConfig {
    /// The grid fits in memory indexing and the divisor can divide.
    pub open spec fn wf(self) -> bool {
        &&& self.width * self.height <= usize::MAX
        &&& self.div >= 1
    }

    pub fn new(width: usize, height: usize, div: u16, iters: usize, steps: usize) -> (cfg:
        RenderConfig)
        requires
            width * height <= usize::MAX,
            div >= 1,
        ensures
            cfg.wf(),
            cfg.width == width,
            cfg.height == height,
            cfg.div == div,
            cfg.iters == iters,
            cfg.steps == steps,
    {
        RenderConfig { width, height, div, iters, steps }
    }

    /// Each of the workers gets the floor share of the total budget; the
    /// remainder, smaller than the worker count, is dropped.
    pub fn iters_per_worker(&self, n_workers: usize) -> (share: usize)
        requires
            n_workers >= 1,
        ensures
            share == self.iters / n_workers,
            share * n_workers <= self.iters,
            self.iters - share * n_workers < n_workers,
    {
        proof {
            lemma_floor_share(self.iters as int, n_workers as int);
        }
        self.iters / n_workers
    }
}

/// Floor division splits a budget into equal shares whose total never
/// exceeds it, and leaves a remainder smaller than the share count.
pub proof fn lemma_floor_share(total: int, n: int)
    requires
        total >= 0,
        n >= 1,
    ensures
        (total / n) * n <= total,
        total - (total / n) * n < n,
{
    assert((total / n) * n <= total && total - (total / n) * n < n) by (nonlinear_arith)
        requires
            total >= 0,
            n >= 1,
    ;
}

/// The grid after crediting one escape path: each in-bounds pixel of the
/// path bumps its counter by one with saturation, in path order;
/// out-of-frame pixels are dropped silently.
pub open spec fn accumulated(cells: Seq<u16>, pixels: Seq<(usize, usize)>, width: nat, height: nat) -> Seq<u16>
    decreases pixels.len(),
{
    if pixels.len() == 0 {
        cells
    } else {
        let rest = accumulated(cells, pixels.drop_last(), width, height);
        let px = pixels.last().0;
        let py = pixels.last().1;
        if px < width && py < height {
            rest.update(px + py * width, sat_add(rest[px + py * width], 1))
        } else {
            rest
        }
    }
}

/// Credit one sample's escape path to the grid. `path_len` is the length of
/// the orbit the sample produced under a cap of `max_steps` steps; `pixels`
/// holds the orbit's points mapped to pixel coordinates. A path that used
/// the whole step budget did not diverge and contributes nothing — the
/// classic Buddhabrot rule. A diverging path bumps the counter of each of
/// its in-bounds pixels by one, saturating.
pub fn accumulate_sample(hist: &mut Histogram, pixels: &Vec<(usize, usize)>, path_len: usize, max_steps: usize)
    requires
        old(hist).wf(),
    ensures
        final(hist).wf(),
        final(hist).spec_width() == old(hist).spec_width(),
        final(hist).spec_height() == old(hist).spec_height(),
        path_len == max_steps ==> final(hist)@ == old(hist)@,
        path_len != max_steps ==> final(hist)@ == accumulated(
            old(hist)@,
            pixels@,
            old(hist).spec_width(),
            old(hist).spec_height(),
        ),
{
    if path_len != max_steps {
        let ghost w = old(hist).spec_width();
        let ghost h = old(hist).spec_height();
        let n: usize = pixels.len();
        let mut i: usize = 0;
        while i < n
            invariant
                i <= n,
                n == pixels@.len(),
                hist.wf(),
                hist.spec_width() == w,
                hist.spec_height() == h,
                hist@ == accumulated(old(hist)@, pixels@.subrange(0, i as int), w, h),
            decreases n - i,
        {
            let px: usize = pixels[i].0;
            let py: usize = pixels[i].1;
            proof {
                assert(pixels@.subrange(0, i + 1).drop_last() =~= pixels@.subrange(0, i as int));
                assert(pixels@.subrange(0, i + 1).last() == pixels@[i as int]);
            }
            hist.record(px, py);
            i = i + 1;
        }
        proof {
            assert(pixels@.subrange(0, n as int) =~= pixels@);
        }
    }
}

/// Accumulating an escape path keeps the grid's size and never decreases a
/// counter: during a worker's run every counter is monotonically
/// non-decreasing.
pub proof fn lemma_accumulated_monotone(cells: Seq<u16>, pixels: Seq<(usize, usize)>, width: nat, height: nat)
    requires
        cells.len() == width * height,
    ensures
        accumulated(cells, pixels, width, height).len() == cells.len(),
        forall|i: int| 0 <= i < cells.len() ==> accumulated(cells, pixels, width, height)[i]
            >= cells[i],
    decreases pixels.len(),
{
    if pixels.len() != 0 {
        lemma_accumulated_monotone(cells, pixels.drop_last(), width, height);
        let rest = accumulated(cells, pixels.drop_last(), width, height);
        let whole = accumulated(cells, pixels, width, height);
        let px = pixels.last().0;
        let py = pixels.last().1;
        if px < width && py < height {
            let target = px + py * width;
            crate::histogram::lemma_cell_index_in_range(
                px as int,
                py as int,
                width as int,
                height as int,
            );
            assert(whole == rest.update(target, sat_add(rest[target], 1)));
            assert forall|i: int| 0 <= i < cells.len() implies whole[i] >= cells[i] by {
                assert(rest[i] >= cells[i]);
                if i == target {
                    assert(whole[i] == sat_add(rest[i], 1));
                } else {
                    assert(whole[i] == rest[i]);
                }
            }
        } else {
            assert(whole == rest);
        }
    }
}

/// A left-fold of saturating merges of equally sized grids into an
/// accumulator, in sequence order.
pub open spec fn merged_fold(acc: Seq<u16>, rest: Seq<Seq<u16>>) -> Seq<u16>
    decreases rest.len(),
{
    if rest.len() == 0 {
        acc
    } else {
        merged_fold(merged(acc, rest[0]), rest.drop_first())
    }
}

/// Combine every worker's grid into the base grid by element-wise
/// saturating addition, in the order given. By the merge laws the result is
/// independent of that order.
pub fn merge_all(base: Histogram, rest: &Vec<Histogram>) -> (out: Histogram)
    requires
        base.wf(),
        forall|k: int| 0 <= k < rest@.len() ==> (#[trigger] rest@[k]).wf(),
        forall|k: int| 0 <= k < rest@.len() ==> (#[trigger] rest@[k]).spec_width()
            == base.spec_width() && rest@[k].spec_height() == base.spec_height(),
    ensures
        out.wf(),
        out.spec_width() == base.spec_width(),
        out.spec_height() == base.spec_height(),
        out@ == merged_fold(base@, rest@.map_values(|h: Histogram| h@)),
{
    let ghost views = rest@.map_values(|h: Histogram| h@);
    let mut out = base;
    let n: usize = rest.len();
    proof {
        assert(views.subrange(0, n as int) =~= views);
    }
    let mut i: usize = 0;
    while i < n
        invariant
            i <= n,
            n == rest@.len(),
            views == rest@.map_values(|h: Histogram| h@),
            out.wf(),
            out.spec_width() == base.spec_width(),
            out.spec_height() == base.spec_height(),
            forall|k: int| 0 <= k < rest@.len() ==> (#[trigger] rest@[k]).wf(),
            forall|k: int| 0 <= k < rest@.len() ==> (#[trigger] rest@[k]).spec_width()
                == base.spec_width() && rest@[k].spec_height() == base.spec_height(),
            merged_fold(base@, views) == merged_fold(out@, views.subrange(i as int, n as int)),
        decreases n - i,
    {
        proof {
            let tail = views.subrange(i as int, n as int);
            assert(tail[0] == rest@[i as int]@);
            assert(tail.drop_first() =~= views.subrange(i + 1, n as int));
        }
        out.merge(&rest[i]);
        i = i + 1;
    }
    proof {
        assert(views.subrange(n as int, n as int).len() == 0);
    }
    out
}

/// The mapping of one summed counter to an output intensity: divide by the
/// configured divisor, truncating, and clamp to the 8-bit maximum.
pub open spec fn gray(c: u16, d: u16) -> u8
    recommends
        d >= 1,
{
    if c / d > 255 {
        255u8
    } else {
        (c / d) as u8
    }
}

/// Rescale the summed 16-bit grid to the 8-bit grayscale raster: every
/// output pixel is min(255, counter / div), row-major, one byte per pixel.
pub fn to_gray(hist: &Histogram, div: u16) -> (out: Vec<u8>)
    requires
        hist.wf(),
        div >= 1,
    ensures
        out@.len() == hist@.len(),
        forall|i: int| 0 <= i < out@.len() ==> out@[i] == gray(hist@[i], div),
{
    let n: usize = hist.len();
    let mut out: Vec<u8> = Vec::new();
    let mut i: usize = 0;
    while i < n
        invariant
            div >= 1,
            i <= n,
            n == hist@.len(),
            out@.len() == i,
            forall|j: int| 0 <= j < i ==> out@[j] == gray(hist@[j], div),
        decreases n - i,
    {
        let c: u16 = hist.counter(i);
        let q: u16 = c / div;
        let v: u8 = if q > 255 {
            255u8
        } else {
            q as u8
        };
        out.push(v);
        i = i + 1;
    }
    out
}

} // verus!
