//! The integer side of the per-replication accumulators: which histogram
//! bin a queue length falls in, and fixed-capacity reservoir sampling.
//!
//! Job-weighted observations are kept in fixed-capacity reservoirs
//! (Vitter's Algorithm R) so memory stays bounded on long horizons. The
//! simulator owns the random stream, so the reservoir takes a `u64`
//! uniform drawn by the caller rather than sampling itself.

use vstd::prelude::*;

verus! {

/// Largest queue length tracked exactly by the time-weighted histogram;
/// longer queues are lumped into the top bin.
pub const QLEN_HIST_MAX: usize = 500;

/// Reservoir capacity per configuration for sojourn, waiting and
/// inter-visit samples.
pub const SOJOURN_SAMPLE_K: usize = 5000;

/// The histogram bin of a configuration holding `l` jobs: `l` itself, or
/// the top bin for longer queues.
pub fn qlen_bin(l: usize) -> (b: usize)
    ensures
        b == if l < QLEN_HIST_MAX {
            l
        } else {
            (QLEN_HIST_MAX - 1) as usize
        },
        b < QLEN_HIST_MAX,
{
    if l < QLEN_HIST_MAX - 1 {
        l
    } else {
        QLEN_HIST_MAX - 1
    }
}

/// A reservoir that has been offered `seen` items holds `min(seen, K)` of
/// them.
pub open spec fn reservoir_full_as_offered(len: nat, seen: nat) -> bool {
    len == if seen < SOJOURN_SAMPLE_K {
        seen
    } else {
        SOJOURN_SAMPLE_K as nat
    }
}

/// The slot that an item offered as the `n`-th one replaces, given the
/// caller's uniform `u`: `u mod n`, when that falls inside the reservoir.
pub open spec fn replaced_slot(u: u64, n: u64) -> Option<int> {
    if n > 0 && (u % n) < SOJOURN_SAMPLE_K {
        Some((u % n) as int)
    } else {
        None
    }
}

/// Vitter's Algorithm R: keep every item until the reservoir is full, then
/// let the `n`-th item replace slot `u mod n` when that slot exists, which
/// happens with probability `K / n` for a uniform `u`.
pub fn reservoir_push<T>(reservoir: &mut Vec<T>, seen: &mut u64, x: T, rng_u64: u64)
    requires
        *old(seen) < u64::MAX,
        *old(seen) >= SOJOURN_SAMPLE_K ==> old(reservoir).len() >= SOJOURN_SAMPLE_K,
    ensures
        *final(seen) == *old(seen) + 1,
        *final(seen) <= SOJOURN_SAMPLE_K ==> final(reservoir)@ == old(reservoir)@.push(x),
        *final(seen) > SOJOURN_SAMPLE_K ==> final(reservoir)@ == match replaced_slot(
            rng_u64,
            *final(seen),
        ) {
            Some(r) => old(reservoir)@.update(r, x),
            None => old(reservoir)@,
        },
{
    *seen = *seen + 1;
    let n = *seen;
    if n <= SOJOURN_SAMPLE_K as u64 {
        reservoir.push(x);
    } else {
        let r = rng_u64 % n;
        if r < SOJOURN_SAMPLE_K as u64 {
            reservoir.set(r as usize, x);
        }
    }
}

/// The reservoir never outgrows its capacity: a reservoir that holds
/// `min(seen, K)` items still does after `reservoir_push`, so the length
/// requirement of the next push always holds.
pub proof fn lemma_reservoir_push_keeps_size<T>(
    before: Seq<T>,
    seen_before: u64,
    after: Seq<T>,
    seen_after: u64,
    x: T,
    rng_u64: u64,
)
    requires
        seen_before < u64::MAX,
        reservoir_full_as_offered(before.len(), seen_before as nat),
        seen_after == seen_before + 1,
        seen_after <= SOJOURN_SAMPLE_K ==> after == before.push(x),
        seen_after > SOJOURN_SAMPLE_K ==> after == match replaced_slot(rng_u64, seen_after) {
            Some(r) => before.update(r, x),
            None => before,
        },
    ensures
        reservoir_full_as_offered(after.len(), seen_after as nat),
        seen_after >= SOJOURN_SAMPLE_K ==> after.len() >= SOJOURN_SAMPLE_K,
{
}

/// Whatever the reservoir holds after a push was either held before or is
/// the item just offered.
pub proof fn lemma_reservoir_holds_offered_items<T>(
    before: Seq<T>,
    seen_after: u64,
    after: Seq<T>,
    x: T,
    rng_u64: u64,
)
    requires
        seen_after <= SOJOURN_SAMPLE_K ==> after == before.push(x),
        seen_after > SOJOURN_SAMPLE_K ==> after == match replaced_slot(rng_u64, seen_after) {
            Some(r) => before.update(r, x),
            None => before,
        },
        seen_after > SOJOURN_SAMPLE_K ==> before.len() >= SOJOURN_SAMPLE_K,
    ensures
        forall|y: T| #[trigger] after.contains(y) ==> before.contains(y) || y == x,
{
    assert forall|y: T| #[trigger] after.contains(y) implies before.contains(y) || y == x by {
        let k = choose|k: int| 0 <= k < after.len() && after[k] == y;
        if seen_after <= SOJOURN_SAMPLE_K {
            if k < before.len() {
                assert(before[k] == y);
            }
        } else {
            match replaced_slot(rng_u64, seen_after) {
                Some(r) => {
                    if k != r {
                        assert(before[k] == y);
                    }
                },
                None => {
                    assert(before[k] == y);
                },
            }
        }
    }
}

/// The stride that thins `len` observations to at most `cap` rows: the
/// smallest step whose every `stride`-th item, counted from the first, are
/// no more than `cap`. A `cap` of zero means no bound.
pub open spec fn stride_spec(len: nat, cap: nat) -> nat {
    if cap == 0 || len <= cap {
        1
    } else {
        (len + cap - 1) as nat / cap
    }
}

/// How many of `len` observations a step of `s` keeps: those at
/// `0, s, 2s, ...` below `len`.
pub open spec fn kept(len: nat, s: nat) -> nat {
    if s == 0 {
        len
    } else {
        (len + s - 1) as nat / s
    }
}

/// The stride that keeps at most `cap` of `len` observations.
pub fn stride(len: usize, cap: usize) -> (s: usize)
    ensures
        s == stride_spec(len as nat, cap as nat),
        s >= 1,
{
    if cap == 0 || len <= cap {
        1
    } else {
        proof {
            lemma_ceil_div(len as int, cap as int);
        }
        (len - 1) / cap + 1
    }
}

/// `ceil(len / cap)` computed without overflow.
proof fn lemma_ceil_div(len: int, cap: int)
    by (nonlinear_arith)
    requires
        len >= 1,
        cap >= 1,
    ensures
        (len - 1) / cap + 1 == (len + cap - 1) / cap,
        (len + cap - 1) / cap >= 1,
{
    vstd::arithmetic::div_mod::lemma_fundamental_div_mod(len - 1, cap);
    vstd::arithmetic::div_mod::lemma_fundamental_div_mod(len + cap - 1, cap);
}

/// Thinning keeps at most `cap` rows, and no smaller step would: the
/// stride is the least one that meets the bound.
pub proof fn lemma_stride_keeps_at_most_cap(len: nat, cap: nat)
    requires
        cap > 0,
    ensures
        kept(len, stride_spec(len, cap)) <= cap,
        stride_spec(len, cap) > 1 ==> kept(len, (stride_spec(len, cap) - 1) as nat) > cap,
{
    let s = stride_spec(len, cap);
    if len <= cap {
        assert(kept(len, 1) == len);
    } else {
        lemma_ceil_bounds(len as int, cap as int);
    }
}

/// With `s = ceil(len / cap)`: `ceil(len / s) <= cap`, and when `s > 1`,
/// `ceil(len / (s - 1)) > cap`.
proof fn lemma_ceil_bounds(len: int, cap: int)
    by (nonlinear_arith)
    requires
        len > cap,
        cap >= 1,
    ensures
        ({
            let s = (len + cap - 1) / cap;
            &&& s >= 1
            &&& (len + s - 1) / s <= cap
            &&& s > 1 ==> (len + s - 2) / (s - 1) > cap
        }),
{
    let s = (len + cap - 1) / cap;
    // s * cap >= len > (s - 1) * cap
    assert(s * cap >= len && (s - 1) * cap < len) by {
        vstd::arithmetic::div_mod::lemma_fundamental_div_mod(len + cap - 1, cap);
    }
    assert(s >= 1);
    assert((len + s - 1) / s <= cap) by {
        vstd::arithmetic::div_mod::lemma_fundamental_div_mod(len + s - 1, s);
    }
    if s > 1 {
        assert((len + s - 2) / (s - 1) > cap) by {
            vstd::arithmetic::div_mod::lemma_fundamental_div_mod(len + s - 2, s - 1);
        }
    }
}

/// Every `stride(len, cap)`-th observation of `xs`, from the first, in
/// order. Observations arrive in completion order, so a fixed stride is an
/// unbiased sample of the stationary distribution; at most `cap` rows are
/// kept when `cap` is positive.
pub fn thin<T: Copy>(xs: &[T], cap: usize) -> (r: Vec<T>)
    ensures
        r@.len() == kept(xs@.len(), stride_spec(xs@.len(), cap as nat)),
        forall|k: int|
            0 <= k < r@.len() ==> #[trigger] r@[k] == xs@[k * stride_spec(xs@.len(), cap as nat)],
{
    let s = stride(xs.len(), cap);
    let len = xs.len();
    let mut r: Vec<T> = Vec::new();
    if len == 0 {
        assert(kept(0, s as nat) == 0) by (nonlinear_arith)
            requires
                s >= 1,
        ;
        return r;
    }
    let mut i: usize = 0;
    let ghost mut j: int = 0;
    loop
        invariant_except_break
            s >= 1,
            len == xs@.len(),
            i < len,
            i == j * s,
            r@.len() == j,
            0 <= j,
            forall|k: int| 0 <= k < r@.len() ==> #[trigger] r@[k] == xs@[k * s],
        ensures
            r@.len() == kept(len as nat, s as nat),
            forall|k: int| 0 <= k < r@.len() ==> #[trigger] r@[k] == xs@[k * s],
        decreases len - i,
    {
        r.push(xs[i]);
        proof {
            j = j + 1;
            assert(i == (j - 1) * s && (j - 1) * s + s == j * s) by (nonlinear_arith)
                requires
                    i == (j - 1) * s,
            ;
        }
        if len - i <= s {
            proof {
                lemma_kept_exact(len as int, s as int, j);
            }
            break;
        }
        i = i + s;
    }
    r
}

/// `j` steps of `s` cover `len` exactly when `ceil(len / s) == j`.
proof fn lemma_kept_exact(len: int, s: int, j: int)
    by (nonlinear_arith)
    requires
        s >= 1,
        len >= 1,
        (j - 1) * s < len,
        len <= j * s,
    ensures
        (len + s - 1) / s == j,
{
    vstd::arithmetic::div_mod::lemma_fundamental_div_mod(len + s - 1, s);
}

} // verus!
