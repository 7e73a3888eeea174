//! Sums over a range of indices.
use vstd::prelude::*;

verus! {

/// The value of 32 bits, signed, nearest to `v`.
pub open spec fn saturated(v: int) -> int {
    if v < -0x8000_0000 {
        -0x8000_0000
    } else if v > 0x7fff_ffff {
        0x7fff_ffff
    } else {
        v
    }
}

/// The sum of `f` over the first `n` indices.
pub open spec fn total(n: int, f: spec_fn(int) -> int) -> int
    decreases n,
{
    if n <= 0 {
        0
    } else {
        total(n - 1, f) + f(n - 1)
    }
}

/// `start`, to which the values of `f` from `low` up to `high` are added one after the
/// other in arithmetic that saturates at 32 bits.
pub open spec fn running(low: int, high: int, f: spec_fn(int) -> int, start: int) -> int
    decreases high - low,
{
    if high <= low {
        start
    } else {
        saturated(running(low, high - 1, f, start) + saturated(f(high - 1)))
    }
}

pub proof fn lemma_running_split(
    low: int,
    middle: int,
    high: int,
    f: spec_fn(int) -> int,
    start: int,
)
    requires
        low <= middle <= high,
    ensures
        running(low, high, f, start) == running(middle, high, f, running(low, middle, f, start)),
    decreases high - middle,
{
    if middle < high {
        lemma_running_split(low, middle, high - 1, f, start);
    }
}

pub proof fn lemma_running_in_range(low: int, high: int, f: spec_fn(int) -> int, start: int)
    requires
        -0x8000_0000 <= start <= 0x7fff_ffff,
    ensures
        -0x8000_0000 <= running(low, high, f, start) <= 0x7fff_ffff,
    decreases high - low,
{
    if low < high {
        lemma_running_in_range(low, high - 1, f, start);
    }
}

pub proof fn lemma_running_zero(low: int, high: int, f: spec_fn(int) -> int, start: int)
    requires
        -0x8000_0000 <= start <= 0x7fff_ffff,
        forall|t: int| low <= t < high ==> #[trigger] f(t) == 0,
    ensures
        running(low, high, f, start) == start,
    decreases high - low,
{
    if low < high {
        lemma_running_zero(low, high - 1, f, start);
        assert(f(high - 1) == 0);
    }
}

pub proof fn lemma_running_same(
    low: int,
    high: int,
    f: spec_fn(int) -> int,
    g: spec_fn(int) -> int,
    start: int,
)
    requires
        forall|t: int| low <= t < high ==> #[trigger] f(t) == g(t),
    ensures
        running(low, high, f, start) == running(low, high, g, start),
    decreases high - low,
{
    if low < high {
        lemma_running_same(low, high - 1, f, g, start);
        assert(f(high - 1) == g(high - 1));
    }
}

/// Where no term and no partial sum leaves 32 bits, the running sum is the plain sum.
pub proof fn lemma_running_exact(n: int, f: spec_fn(int) -> int, start: int)
    requires
        forall|t: int| 0 <= t < n ==> -0x8000_0000 <= #[trigger] f(t) <= 0x7fff_ffff,
        forall|t: int| 0 <= t <= n ==> -0x8000_0000 <= start + #[trigger] total(t, f)
            <= 0x7fff_ffff,
    ensures
        running(0, n, f, start) == start + total(n, f),
    decreases n,
{
    if n > 0 {
        lemma_running_exact(n - 1, f, start);
        assert(-0x8000_0000 <= start + total(n, f) <= 0x7fff_ffff);
        assert(-0x8000_0000 <= f(n - 1) <= 0x7fff_ffff);
    }
}

pub proof fn lemma_total_same(n: int, f: spec_fn(int) -> int, g: spec_fn(int) -> int)
    requires
        forall|t: int| 0 <= t < n ==> #[trigger] f(t) == g(t),
    ensures
        total(n, f) == total(n, g),
    decreases n,
{
    if n > 0 {
        lemma_total_same(n - 1, f, g);
        assert(f(n - 1) == g(n - 1));
    }
}

} // verus!
