//! The Mandelbrot strategy: how the square region of the complex plane is
//! cut into one strip per worker.
//!
//! The region reaches from `-bound` to `bound` on both axes. Its real axis is
//! cut into as many strips of equal width as there are workers; every strip
//! spans the whole imaginary axis. The edges are exact: each is a whole
//! numerator over the number of workers.

use crate::strategy::StressStrategy;
use vstd::prelude::*;

verus! {

/// The bound of the region unless another is asked for.
pub const REGION_BOUND: u32 = 2;

/// The numerator, over `workers`, of the edge between strip `i - 1` and
/// strip `i`: the edge lies at `-bound + i * (2 * bound / workers)`.
pub open spec fn strip_edge(bound: int, workers: int, i: int) -> int {
    2 * bound * i - bound * workers
}

/// Whether the point `u / v` of the real axis lies in strip `i`.
pub open spec fn in_strip(bound: int, workers: int, i: int, u: int, v: int) -> bool {
    strip_edge(bound, workers, i) * v <= u * workers < strip_edge(bound, workers, i + 1) * v
}

/// The part of the region that one worker sweeps: an interval of the real
/// axis and one of the imaginary axis, each closed below and open above.
/// The four edges are numerators over `scale`.
#[derive(Debug, Copy, Clone, PartialEq, Eq, Structural)]
pub struct Partition {
    pub index: usize,
    pub scale: usize,
    pub real_low: i128,
    pub real_high: i128,
    pub imaginary_low: i128,
    pub imaginary_high: i128,
}

/// The partition of worker `i`, of `workers`, in the region of the given bound.
pub open spec fn strip(bound: int, workers: int, i: int) -> Partition {
    Partition {
        index: i as usize,
        scale: workers as usize,
        real_low: strip_edge(bound, workers, i) as i128,
        real_high: strip_edge(bound, workers, i + 1) as i128,
        imaginary_low: strip_edge(bound, workers, 0) as i128,
        imaginary_high: strip_edge(bound, workers, workers) as i128,
    }
}

/// The strategy that sweeps the region with the escape iteration.
#[derive(Debug)]
pub struct Mandelbrot {
    num_threads: usize,
    precision: u32,
    max_iterations: usize,
    bound: u32,
}

impl Mandelbrot {
    /// The bound of the region.
    pub closed spec fn bound(&self) -> nat {
        self.bound as nat
    }

    /// The number of significant bits of every value of the sweep.
    pub closed spec fn precision_bits(&self) -> nat {
        self.precision as nat
    }

    /// The number of iterations after which a point is given up.
    pub closed spec fn iteration_cap(&self) -> nat {
        self.max_iterations as nat
    }

    /// A strategy with `num_threads` workers on the region from -2 to 2.
    pub fn new(num_threads: usize, precision: u32, max_iterations: usize) -> (s: Self)
        ensures
            s.workers() == num_threads,
            s.precision_bits() == precision,
            s.iteration_cap() == max_iterations,
            s.bound() == REGION_BOUND,
    {
        Mandelbrot { num_threads, precision, max_iterations, bound: REGION_BOUND }
    }

    /// The same strategy on the region from `-bound` to `bound`.
    pub fn with_bound(self, bound: u32) -> (s: Self)
        ensures
            s.workers() == self.workers(),
            s.precision_bits() == self.precision_bits(),
            s.iteration_cap() == self.iteration_cap(),
            s.bound() == bound,
    {
        Mandelbrot {
            num_threads: self.num_threads,
            precision: self.precision,
            max_iterations: self.max_iterations,
            bound,
        }
    }

    /// The number of significant bits of every value of the sweep.
    pub fn precision(&self) -> (bits: u32)
        ensures
            bits == self.precision_bits(),
    {
        self.precision
    }

    /// The number of iterations after which a point is given up.
    pub fn max_iterations(&self) -> (cap: usize)
        ensures
            cap == self.iteration_cap(),
    {
        self.max_iterations
    }

    /// The bound of the region.
    pub fn region_bound(&self) -> (bound: u32)
        ensures
            bound == self.bound(),
    {
        self.bound
    }

    /// The partition of the worker with the given index, if there is such a worker.
    pub fn partition(&self, index: usize) -> (r: Option<Partition>)
        ensures
            r is Some <==> index < self.workers(),
            r matches Some(p) ==> p == strip(self.bound() as int, self.workers() as int, index as int),
    {
        if index >= self.num_threads {
            return None;
        }
        let bound = self.bound as i128;
        let workers = self.num_threads as i128;
        let i = index as i128;
        proof {
            lemma_edges_in_range(bound as int, workers as int, i as int);
            lemma_edges_in_range(bound as int, workers as int, i + 1);
            lemma_edges_in_range(bound as int, workers as int, 0);
            lemma_edges_in_range(bound as int, workers as int, workers as int);
        }
        let span = bound * workers;
        let low = 2 * bound * i - span;
        Some(
            Partition {
                index,
                scale: self.num_threads,
                real_low: low,
                real_high: low + 2 * bound,
                imaginary_low: -span,
                imaginary_high: span,
            },
        )
    }

    /// The partitions of all workers, in the order of the workers.
    pub fn partitions(&self) -> (r: Vec<Partition>)
        ensures
            r@.len() == self.workers(),
            forall|i: int|
                0 <= i < r@.len() ==> #[trigger] r@[i] == strip(
                    self.bound() as int,
                    self.workers() as int,
                    i,
                ),
    {
        let mut parts: Vec<Partition> = Vec::new();
        let mut index: usize = 0;
        while index < self.num_threads
            invariant
                index <= self.num_threads,
                parts@.len() == index,
                forall|i: int|
                    0 <= i < parts@.len() ==> #[trigger] parts@[i] == strip(
                        self.bound() as int,
                        self.workers() as int,
                        i,
                    ),
            decreases self.num_threads - index,
        {
            match self.partition(index) {
                Some(p) => parts.push(p),
                None => {},
            }
            index += 1;
        }
        parts
    }
}

impl StressStrategy for Mandelbrot {
    open spec fn label() -> Seq<char> {
        "Mandelbrot set calculation"@
    }

    closed spec fn workers(&self) -> nat {
        self.num_threads as nat
    }

    fn name<'a>(&self) -> (s: &'a str) {
        "Mandelbrot set calculation"
    }

    fn num_threads(&self) -> (n: usize) {
        self.num_threads
    }
}

/// The edges of the strips are small enough to be computed in 128 bits.
proof fn lemma_edges_in_range(bound: int, workers: int, i: int)
    requires
        0 <= bound <= u32::MAX,
        0 <= workers <= u64::MAX,
        0 <= i <= workers,
    ensures
        0 <= bound * workers <= 0x1_0000_0000_0000_0000_0000_0000,
        0 <= 2 * bound * i <= 0x2_0000_0000_0000_0000_0000_0000,
        -0x1_0000_0000_0000_0000_0000_0000 <= strip_edge(bound, workers, i)
            <= 0x2_0000_0000_0000_0000_0000_0000,
        strip_edge(bound, workers, i + 1) == strip_edge(bound, workers, i) + 2 * bound,
        strip_edge(bound, workers, 0) == -(bound * workers),
        strip_edge(bound, workers, workers) == bound * workers,
{
    assert(0 <= bound * workers <= 0x1_0000_0000_0000_0000_0000_0000) by (nonlinear_arith)
        requires
            0 <= bound <= 0xffff_ffff,
            0 <= workers <= 0xffff_ffff_ffff_ffff,
    ;
    assert(0 <= bound * i <= bound * workers) by (nonlinear_arith)
        requires
            0 <= bound,
            0 <= i <= workers,
    ;
    assert(2 * bound * i == 2 * (bound * i)) by (nonlinear_arith);
    assert(2 * bound * (i + 1) == 2 * (bound * i) + 2 * bound) by (nonlinear_arith);
    assert(2 * bound * 0 == 0) by (nonlinear_arith);
    assert(2 * bound * workers == 2 * (bound * workers)) by (nonlinear_arith);
}

/// The strips lie side by side from one end of the region to the other: the
/// first begins at `-bound`, each ends where the next begins, the last ends
/// at `bound`, and all are `2 * bound / workers` wide.
pub proof fn lemma_strips_are_adjacent(bound: int, workers: int, i: int)
    requires
        workers > 0,
        0 <= i < workers,
    ensures
        strip_edge(bound, workers, 0) == -bound * workers,
        strip_edge(bound, workers, workers) == bound * workers,
        strip_edge(bound, workers, i + 1) - strip_edge(bound, workers, i) == 2 * bound,
        workers * (strip_edge(bound, workers, i + 1) - strip_edge(bound, workers, i))
            == strip_edge(bound, workers, workers) - strip_edge(bound, workers, 0),
{
    assert(2 * bound * 0 == 0) by (nonlinear_arith);
    assert(2 * bound * workers == 2 * (bound * workers)) by (nonlinear_arith);
    assert(-bound * workers == -(bound * workers)) by (nonlinear_arith);
    assert(2 * bound * (i + 1) == 2 * bound * i + 2 * bound) by (nonlinear_arith);
    assert(workers * (2 * bound) == 2 * (bound * workers)) by (nonlinear_arith);
}

/// The edges rise with the index of the strip.
proof fn lemma_edges_rise(bound: int, workers: int, i: int, j: int)
    requires
        bound > 0,
        i <= j,
    ensures
        strip_edge(bound, workers, i) <= strip_edge(bound, workers, j),
{
    assert(2 * bound * i <= 2 * bound * j) by (nonlinear_arith)
        requires
            bound > 0,
            i <= j,
    ;
}

/// Every point of the region lies in exactly one strip: there is no gap
/// between the strips and no two of them overlap. The point is `u / v` on
/// the real axis, from `-bound` up to but not including `bound`.
pub proof fn lemma_strips_cover_region(bound: int, workers: int, u: int, v: int)
    requires
        bound > 0,
        workers > 0,
        v > 0,
        -bound * v <= u < bound * v,
    ensures
        exists|i: int| 0 <= i < workers && #[trigger] in_strip(bound, workers, i, u, v),
        forall|i: int, j: int|
            0 <= i < workers && 0 <= j < workers && #[trigger] in_strip(bound, workers, i, u, v)
                && #[trigger] in_strip(bound, workers, j, u, v) ==> i == j,
{
    let d = 2 * bound * v;
    let t = u * workers + bound * workers * v;
    assert(d > 0) by (nonlinear_arith)
        requires
            bound > 0,
            v > 0,
            d == 2 * bound * v,
    ;
    assert(0 <= t < workers * d) by (nonlinear_arith)
        requires
            workers > 0,
            -bound * v <= u < bound * v,
            t == u * workers + bound * workers * v,
            d == 2 * bound * v,
    ;
    let i = t / d;
    vstd::arithmetic::div_mod::lemma_fundamental_div_mod(t, d);
    vstd::arithmetic::div_mod::lemma_mod_bound(t, d);
    assert(0 <= i < workers) by (nonlinear_arith)
        requires
            0 <= t < workers * d,
            t == d * i + t % d,
            0 <= t % d < d,
            d > 0,
    ;
    assert(strip_edge(bound, workers, i) * v == d * i - bound * workers * v) by (nonlinear_arith)
        requires
            d == 2 * bound * v,
    ;
    assert(strip_edge(bound, workers, i + 1) * v == d * i + d - bound * workers * v)
        by (nonlinear_arith)
        requires
            d == 2 * bound * v,
    ;
    assert(in_strip(bound, workers, i, u, v));
    assert forall|i: int, j: int|
        0 <= i < workers && 0 <= j < workers && #[trigger] in_strip(bound, workers, i, u, v)
            && #[trigger] in_strip(bound, workers, j, u, v) implies i == j by {
        if i < j {
            lemma_edges_rise(bound, workers, i + 1, j);
            lemma_scaled_order(strip_edge(bound, workers, i + 1), strip_edge(bound, workers, j), v);
        } else if j < i {
            lemma_edges_rise(bound, workers, j + 1, i);
            lemma_scaled_order(strip_edge(bound, workers, j + 1), strip_edge(bound, workers, i), v);
        }
    }
}

/// Scaling by a positive number keeps the order.
proof fn lemma_scaled_order(x: int, y: int, v: int)
    requires
        x <= y,
        v > 0,
    ensures
        x * v <= y * v,
{
    assert(x * v <= y * v) by (nonlinear_arith)
        requires
            x <= y,
            v > 0,
    ;
}

} // verus!
