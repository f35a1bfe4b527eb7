//! The candidate sequences of Tian & Shone's `K`-stop index.
//!
//! At every decision the `K`-stop heuristic scores ordered sequences
//! `s = (s_1, ..., s_m)`, `1 <= m <= K`, of distinct demand points drawn
//! from the candidate domain: the configurations reachable from the
//! current one `c`, together with `c` itself. The first stop must differ
//! from `c`; `c` may appear later in a sequence. Sequences are visited in
//! depth-first preorder — a sequence before its extensions, extensions in
//! the order of the domain — and the visit stops once a cap on the number
//! of scored sequences is reached. The scores themselves are computed on
//! rates and distances; this module produces the domain and the sequences,
//! in the order they are scored.

use vstd::prelude::*;
use crate::policy::{serve_or_idle, serve_or_idle_here, Step};

verus! {

/// The configurations below `m` that are `current` or reachable from it,
/// in increasing order.
pub open spec fn domain_of(current: usize, reachable: Seq<bool>, m: nat) -> Seq<usize>
    decreases m,
{
    if m == 0 {
        Seq::empty()
    } else {
        let j = (m - 1) as nat;
        let rest = domain_of(current, reachable, j);
        if j == current || (j < reachable.len() && reachable[j as int]) {
            rest.push(j as usize)
        } else {
            rest
        }
    }
}

/// The candidate domain at `current`: every configuration reachable from
/// it, and `current` itself so that it can appear after the first stop.
/// `reachable[j]` says whether `j` can be reached from `current`.
pub fn build_domain(current: usize, reachable: &[bool]) -> (r: Vec<usize>)
    ensures
        r@ == domain_of(current, reachable@, reachable@.len() as nat),
{
    let n = reachable.len();
    let mut out: Vec<usize> = Vec::new();
    let mut j: usize = 0;
    while j < n
        invariant
            n == reachable@.len(),
            j <= n,
            out@ == domain_of(current, reachable@, j as nat),
        decreases n - j,
    {
        if j == current || reachable[j] {
            out.push(j);
        }
        j = j + 1;
    }
    out
}

/// The domain holds exactly `current` (when it is a configuration) and the
/// configurations reachable from it, each once, in increasing order.
pub proof fn lemma_domain_of(current: usize, reachable: Seq<bool>, m: nat)
    requires
        m <= reachable.len(),
        m <= usize::MAX + 1,
    ensures
        forall|j: usize|
            #[trigger] domain_of(current, reachable, m).contains(j) <==> (j < m && (j == current
                || reachable[j as int])),
        forall|a: int, b: int|
            0 <= a < b < domain_of(current, reachable, m).len() ==> domain_of(current, reachable, m)[a]
                < domain_of(current, reachable, m)[b],
        forall|a: int|
            0 <= a < domain_of(current, reachable, m).len() ==> domain_of(current, reachable, m)[a]
                < m,
    decreases m,
{
    if m > 0 {
        let j = (m - 1) as nat;
        lemma_domain_of(current, reachable, j);
        let rest = domain_of(current, reachable, j);
        let all = domain_of(current, reachable, m);
        if j == current || reachable[j as int] {
            assert(all == rest.push(j as usize));
            assert forall|x: usize| all.contains(x) <==> (x < m && (x == current
                || reachable[x as int])) by {
                if x == j {
                    assert(all[rest.len() as int] == x);
                } else if all.contains(x) {
                    let k = choose|k: int| 0 <= k < all.len() && all[k] == x;
                    assert(rest[k] == x);
                    assert(rest.contains(x));
                } else if x < j && (x == current || reachable[x as int]) {
                    assert(rest.contains(x));
                    let k = choose|k: int| 0 <= k < rest.len() && rest[k] == x;
                    assert(all[k] == x);
                }
            }
        } else {
            assert(all == rest);
            assert forall|x: usize| all.contains(x) <==> (x < m && (x == current
                || reachable[x as int])) by {
                if x < j && (x == current || reachable[x as int]) {
                    assert(rest.contains(x));
                }
                if all.contains(x) {
                    assert(rest.contains(x));
                }
            }
        }
    }
}

/// `j` may extend `prefix`: it is not already in it, and it is not the
/// current configuration as a first stop.
pub open spec fn may_extend(prefix: Seq<usize>, current: usize, j: usize) -> bool {
    !prefix.contains(j) && !(prefix.len() == 0 && j == current)
}

/// Every sequence of at most `k` stops that extends `prefix`, in
/// depth-first preorder: `prefix` itself when nonempty, then the
/// extensions by each eligible stop in domain order.
pub open spec fn preorder(domain: Seq<usize>, current: usize, k: nat, prefix: Seq<usize>) -> Seq<Seq<usize>>
    decreases k - prefix.len(), domain.len() + 1,
{
    let own = if prefix.len() > 0 {
        seq![prefix]
    } else {
        Seq::empty()
    };
    if prefix.len() >= k {
        own
    } else {
        own + extensions(domain, current, k, prefix, 0)
    }
}

/// The preorders of the extensions of `prefix` by the eligible stops at
/// positions `idx..` of the domain.
pub open spec fn extensions(domain: Seq<usize>, current: usize, k: nat, prefix: Seq<usize>, idx: nat) -> Seq<Seq<usize>>
    decreases k - prefix.len(), domain.len() - idx,
{
    if prefix.len() >= k || idx >= domain.len() {
        Seq::empty()
    } else {
        extension(domain, current, k, prefix, idx) + extensions(
            domain,
            current,
            k,
            prefix,
            idx + 1,
        )
    }
}

/// The preorder of the extension of `prefix` by the stop at position `idx`
/// of the domain, or nothing when that stop is not eligible.
pub open spec fn extension(domain: Seq<usize>, current: usize, k: nat, prefix: Seq<usize>, idx: nat) -> Seq<Seq<usize>>
    decreases k - prefix.len(), domain.len() - idx, 0nat,
{
    if prefix.len() < k && idx < domain.len() && may_extend(prefix, current, domain[idx as int]) {
        preorder(domain, current, k, prefix.push(domain[idx as int]))
    } else {
        Seq::empty()
    }
}

/// `items` appended to `out` up to a total of `cap`.
pub open spec fn append_capped<T>(out: Seq<T>, items: Seq<T>, cap: nat) -> Seq<T> {
    if out.len() >= cap {
        out
    } else if out.len() + items.len() <= cap {
        out + items
    } else {
        out + items.take(cap - out.len())
    }
}

/// Appending in two steps up to a cap is appending the concatenation.
pub proof fn lemma_append_capped_twice<T>(out: Seq<T>, x: Seq<T>, y: Seq<T>, cap: nat)
    requires
        out.len() <= cap,
    ensures
        append_capped(append_capped(out, x, cap), y, cap) == append_capped(out, x + y, cap),
{
    let a = append_capped(out, x, cap);
    if out.len() >= cap {
    } else if out.len() + x.len() <= cap {
        assert(out + x + y =~= out + (x + y));
        if a.len() + y.len() > cap {
            assert((out + x) + y.take(cap - a.len()) =~= out + (x + y).take(cap - out.len()));
        }
    } else {
        assert(x.take(cap - out.len()) =~= (x + y).take(cap - out.len()));
    }
}

/// Visit the extensions of the sequence on `stack` in preorder, appending
/// each visited sequence to `out` until `out` holds `cap`.
fn visit(
    domain: &[usize],
    current: usize,
    k_max: usize,
    cap: usize,
    stack: &mut Vec<usize>,
    used: &mut Vec<bool>,
    out: &mut Vec<Vec<usize>>,
)
    requires
        old(out)@.len() < cap,
        old(stack)@.len() <= k_max,
        forall|i: int| 0 <= i < domain@.len() ==> domain@[i] < old(used)@.len(),
        forall|j: int|
            0 <= j < old(used)@.len() ==> #[trigger] old(used)@[j] == old(stack)@.contains(j as usize),
    ensures
        final(stack)@ == old(stack)@,
        final(used)@ == old(used)@,
        final(out)@.map_values(|s: Vec<usize>| s@) == append_capped(
            old(out)@.map_values(|s: Vec<usize>| s@),
            preorder(domain@, current, k_max as nat, old(stack)@),
            cap as nat,
        ),
    decreases k_max - stack@.len(),
{
    let ghost prefix = stack@;
    let ghost used0 = used@;
    let ghost out0 = out@.map_values(|s: Vec<usize>| s@);
    let ghost own: Seq<Seq<usize>> = if prefix.len() > 0 {
        seq![prefix]
    } else {
        Seq::empty()
    };
    if stack.len() > 0 {
        let mut copy: Vec<usize> = Vec::new();
        let mut i: usize = 0;
        while i < stack.len()
            invariant
                i <= stack@.len(),
                copy@ == stack@.take(i as int),
            decreases stack@.len() - i,
        {
            copy.push(stack[i]);
            i = i + 1;
        }
        assert(stack@.take(stack@.len() as int) == stack@);
        out.push(copy);
        assert(out@.map_values(|s: Vec<usize>| s@) =~= out0 + own);
        if out.len() >= cap {
            return;
        }
    } else {
        assert(out@.map_values(|s: Vec<usize>| s@) =~= out0 + own);
    }
    if stack.len() == k_max {
        return;
    }
    let ghost after_own = out@.map_values(|s: Vec<usize>| s@);
    let ulen = used.len();
    let mut idx: usize = 0;
    let ghost mut done: Seq<Seq<usize>> = Seq::empty();
    while idx < domain.len()
        invariant
            stack@ == prefix,
            prefix == old(stack)@,
            used0 == old(used)@,
            out0 == old(out)@.map_values(|s: Vec<usize>| s@),
            used@ == used0,
            used@.len() == ulen,
            prefix.len() < k_max,
            idx <= domain@.len(),
            forall|i: int| 0 <= i < domain@.len() ==> domain@[i] < used@.len(),
            forall|j: int| 0 <= j < used@.len() ==> #[trigger] used@[j] == stack@.contains(j as usize),
            out@.len() < cap,
            out@.map_values(|s: Vec<usize>| s@) == after_own + done,
            after_own == out0 + own,
            own == (if prefix.len() > 0 {
                seq![prefix]
            } else {
                Seq::<Seq<usize>>::empty()
            }),
            extensions(domain@, current, k_max as nat, prefix, 0) == done + extensions(
                domain@,
                current,
                k_max as nat,
                prefix,
                idx as nat,
            ),
        decreases domain@.len() - idx,
    {
        let j = domain[idx];
        assert(forall|x: int| 0 <= x < used0.len() ==> #[trigger] used0[x] == prefix.contains(x as usize));
        let ghost part = extension(domain@, current, k_max as nat, prefix, idx as nat);
        assert(extensions(domain@, current, k_max as nat, prefix, idx as nat) == part + extensions(
            domain@,
            current,
            k_max as nat,
            prefix,
            (idx + 1) as nat,
        ));
        if !used[j] && !(stack.len() == 0 && j == current) {
            assert(may_extend(prefix, current, j));
            let ghost before = out@.map_values(|s: Vec<usize>| s@);
            used.set(j, true);
            assert(used@ == used0.update(j as int, true));
            stack.push(j);
            assert(stack@ == prefix.push(j));
            assert(stack@.len() == prefix.len() + 1);
            assert forall|x: int| 0 <= x < used@.len() implies used@[x] == stack@.contains(
                x as usize,
            ) by {
                assert(used0[x] == prefix.contains(x as usize));
                let xu = x as usize;
                assert(xu as int == x);
                if xu == j {
                    assert(stack@[prefix.len() as int] == j);
                    assert(stack@.contains(xu));
                } else {
                    assert(used@[x] == used0[x]);
                    if stack@.contains(xu) {
                        let w = choose|w: int| 0 <= w < stack@.len() && stack@[w] == xu;
                        assert(w < prefix.len());
                        assert(prefix[w] == xu);
                        assert(prefix.contains(xu));
                    }
                    if prefix.contains(xu) {
                        let w = choose|w: int| 0 <= w < prefix.len() && prefix[w] == xu;
                        assert(stack@[w] == xu);
                        assert(stack@.contains(xu));
                    }
                }
            }
            assert(k_max - stack@.len() < k_max - prefix.len());
            visit(domain, current, k_max, cap, stack, used, out);
            stack.pop();
            used.set(j, false);
            assert(stack@ =~= prefix);
            assert(used@ =~= used0);
            proof {
                let old_done = done;
                lemma_append_capped_twice(out0, own + old_done, part, cap as nat);
                assert(before == append_capped(out0, own + old_done, cap as nat)) by {
                    assert(out0 + (own + old_done) =~= after_own + old_done);
                }
                assert(out@.map_values(|s: Vec<usize>| s@) == append_capped(
                    out0,
                    own + old_done + part,
                    cap as nat,
                ));
                done = old_done + part;
                assert(own + done =~= own + old_done + part);
            }
            if out.len() >= cap {
                proof {
                    let rest = extensions(domain@, current, k_max as nat, prefix, (idx + 1) as nat);
                    assert(extensions(domain@, current, k_max as nat, prefix, 0) =~= done + rest);
                    assert(preorder(domain@, current, k_max as nat, prefix) == own + extensions(
                        domain@,
                        current,
                        k_max as nat,
                        prefix,
                        0,
                    ));
                    lemma_append_capped_twice(out0, own + done, rest, cap as nat);
                    assert(own + done + rest =~= own + extensions(
                        domain@,
                        current,
                        k_max as nat,
                        prefix,
                        0,
                    ));
                }
                return;
            }
            proof {
                assert(out@.map_values(|s: Vec<usize>| s@) =~= after_own + done);
            }
        } else {
            assert(!may_extend(prefix, current, j)) by {
                if used[j as int] {
                    assert(prefix.contains(j));
                }
            }
            assert(part =~= Seq::<Seq<usize>>::empty());
            assert(done + part =~= done);
        }
        assert(extensions(domain@, current, k_max as nat, prefix, 0) =~= done + extensions(
            domain@,
            current,
            k_max as nat,
            prefix,
            (idx + 1) as nat,
        ));
        idx = idx + 1;
    }
    proof {
        assert(extensions(domain@, current, k_max as nat, prefix, idx as nat) =~= Seq::<
            Seq<usize>,
        >::empty());
        assert(done =~= extensions(domain@, current, k_max as nat, prefix, 0));
        assert(out@.map_values(|s: Vec<usize>| s@) =~= out0 + (own + done));
    }
}

/// A candidate sequence of the `K`-stop index: between one and `k` stops,
/// all from the domain, pairwise distinct, the first not `current`.
pub open spec fn is_candidate(domain: Seq<usize>, current: usize, k: nat, s: Seq<usize>) -> bool {
    &&& 1 <= s.len() <= k
    &&& s[0] != current
    &&& forall|a: int, b: int| 0 <= a < b < s.len() ==> s[a] != s[b]
    &&& forall|a: int| 0 <= a < s.len() ==> domain.contains(#[trigger] s[a])
}

/// A prefix the enumeration can stand on: at most `k` distinct stops from
/// the domain, the first not `current`.
pub open spec fn is_partial(domain: Seq<usize>, current: usize, k: nat, p: Seq<usize>) -> bool {
    &&& p.len() <= k
    &&& (p.len() > 0 ==> p[0] != current)
    &&& forall|a: int, b: int| 0 <= a < b < p.len() ==> p[a] != p[b]
    &&& forall|a: int| 0 <= a < p.len() ==> domain.contains(#[trigger] p[a])
}

/// Everything the enumeration visits from `prefix` (from position `idx`
/// of the domain on, for the extensions) is a candidate extending
/// `prefix`.
proof fn lemma_preorder_sound(domain: Seq<usize>, current: usize, k: nat, prefix: Seq<usize>)
    requires
        is_partial(domain, current, k, prefix),
    ensures
        forall|s: Seq<usize>| #[trigger] preorder(domain, current, k, prefix).contains(s) ==> is_candidate(
            domain,
            current,
            k,
            s,
        ) && s.len() >= prefix.len() && s.take(prefix.len() as int) == prefix,
    decreases k - prefix.len(), domain.len() + 1,
{
    let own: Seq<Seq<usize>> = if prefix.len() > 0 {
        seq![prefix]
    } else {
        Seq::empty()
    };
    assert(prefix.take(prefix.len() as int) =~= prefix);
    if prefix.len() < k {
        lemma_extensions_sound(domain, current, k, prefix, 0);
        let ext = extensions(domain, current, k, prefix, 0);
        assert forall|s: Seq<usize>| #[trigger] preorder(domain, current, k, prefix).contains(s) implies is_candidate(
            domain,
            current,
            k,
            s,
        ) && s.len() >= prefix.len() && s.take(prefix.len() as int) == prefix by {
            let w = choose|w: int| 0 <= w < (own + ext).len() && (own + ext)[w] == s;
            if w >= own.len() {
                assert(ext[w - own.len()] == s);
                assert(ext.contains(s));
            }
        }
    }
}

proof fn lemma_extensions_sound(domain: Seq<usize>, current: usize, k: nat, prefix: Seq<usize>, idx: nat)
    requires
        is_partial(domain, current, k, prefix),
    ensures
        forall|s: Seq<usize>| #[trigger] extensions(domain, current, k, prefix, idx).contains(s)
            ==> is_candidate(domain, current, k, s) && s.len() > prefix.len() && s.take(
            prefix.len() as int,
        ) == prefix,
    decreases k - prefix.len(), domain.len() - idx,
{
    if prefix.len() < k && idx < domain.len() {
        lemma_extensions_sound(domain, current, k, prefix, idx + 1);
        let part = extension(domain, current, k, prefix, idx);
        let rest = extensions(domain, current, k, prefix, idx + 1);
        if may_extend(prefix, current, domain[idx as int]) {
            let x = domain[idx as int];
            let q = prefix.push(x);
            assert(domain.contains(q[q.len() - 1]));
            assert forall|a: int, b: int| 0 <= a < b < q.len() implies q[a] != q[b] by {
                if b == q.len() - 1 {
                    assert(prefix[a] == q[a]);
                }
            }
            assert(is_partial(domain, current, k, q));
            lemma_preorder_sound(domain, current, k, q);
            assert(part == preorder(domain, current, k, q));
            assert forall|s: Seq<usize>| #[trigger] part.contains(s) implies s.len() > prefix.len()
                && s.take(prefix.len() as int) == prefix by {
                assert(preorder(domain, current, k, q).contains(s));
                assert(s.take(q.len() as int) == q);
                assert(s.take(prefix.len() as int) =~= q.take(prefix.len() as int));
                assert(q.take(prefix.len() as int) =~= prefix);
            }
        }
        assert forall|s: Seq<usize>| #[trigger] extensions(domain, current, k, prefix, idx).contains(s)
            implies is_candidate(domain, current, k, s) && s.len() > prefix.len() && s.take(
            prefix.len() as int,
        ) == prefix by {
            let all = extensions(domain, current, k, prefix, idx);
            assert(all == part + rest);
            let w = choose|w: int| 0 <= w < all.len() && all[w] == s;
            if w < part.len() {
                assert(part[w] == s);
                assert(part.contains(s));
            } else {
                assert(rest[w - part.len()] == s);
                assert(rest.contains(s));
            }
        }
    }
}

/// Every candidate extending `prefix` is visited from it.
proof fn lemma_preorder_complete(
    domain: Seq<usize>,
    current: usize,
    k: nat,
    prefix: Seq<usize>,
    s: Seq<usize>,
)
    requires
        is_partial(domain, current, k, prefix),
        is_candidate(domain, current, k, s),
        s.len() >= prefix.len(),
        s.take(prefix.len() as int) == prefix,
    ensures
        preorder(domain, current, k, prefix).contains(s),
    decreases k - prefix.len(),
{
    let own: Seq<Seq<usize>> = if prefix.len() > 0 {
        seq![prefix]
    } else {
        Seq::empty()
    };
    if s.len() == prefix.len() {
        assert(s =~= s.take(prefix.len() as int));
        assert(own[0] == s);
        if prefix.len() < k {
            let ext = extensions(domain, current, k, prefix, 0);
            assert(preorder(domain, current, k, prefix) == own + ext);
            assert((own + ext)[0] == s);
        } else {
            assert(preorder(domain, current, k, prefix) == own);
        }
    } else {
        let x = s[prefix.len() as int];
        let q = prefix.push(x);
        assert(q =~= s.take(q.len() as int));
        assert(!prefix.contains(x)) by {
            if prefix.contains(x) {
                let a = choose|a: int| 0 <= a < prefix.len() && prefix[a] == x;
                assert(s[a] == prefix[a]);
            }
        }
        assert(may_extend(prefix, current, x));
        assert(is_partial(domain, current, k, q)) by {
            assert forall|a: int, b: int| 0 <= a < b < q.len() implies q[a] != q[b] by {
                assert(q[a] == s[a]);
                assert(q[b] == s[b]);
            }
            assert forall|a: int| 0 <= a < q.len() implies domain.contains(#[trigger] q[a]) by {
                assert(q[a] == s[a]);
            }
        }
        lemma_preorder_complete(domain, current, k, q, s);
        assert(domain.contains(s[prefix.len() as int]));
        let idx = choose|idx: int| 0 <= idx < domain.len() && domain[idx] == x;
        assert(extension(domain, current, k, prefix, idx as nat) == preorder(domain, current, k, q));
        lemma_extensions_include(domain, current, k, prefix, 0, idx as nat, s);
        let ext = extensions(domain, current, k, prefix, 0);
        let w = choose|w: int| 0 <= w < ext.len() && ext[w] == s;
        assert(preorder(domain, current, k, prefix) == own + ext);
        assert((own + ext)[own.len() + w] == s);
    }
}

/// The extensions from position `start` on include everything the
/// extension at any later position `idx` visits.
proof fn lemma_extensions_include(
    domain: Seq<usize>,
    current: usize,
    k: nat,
    prefix: Seq<usize>,
    start: nat,
    idx: nat,
    s: Seq<usize>,
)
    requires
        start <= idx < domain.len(),
        extension(domain, current, k, prefix, idx).contains(s),
    ensures
        extensions(domain, current, k, prefix, start).contains(s),
    decreases idx - start,
{
    let part = extension(domain, current, k, prefix, start);
    let rest = extensions(domain, current, k, prefix, start + 1);
    assert(prefix.len() < k);
    assert(extensions(domain, current, k, prefix, start) == part + rest);
    if start == idx {
        let w = choose|w: int| 0 <= w < part.len() && part[w] == s;
        assert((part + rest)[w] == s);
    } else {
        lemma_extensions_include(domain, current, k, prefix, start + 1, idx, s);
        let w = choose|w: int| 0 <= w < rest.len() && rest[w] == s;
        assert((part + rest)[part.len() + w] == s);
    }
}

/// The enumeration visits exactly the candidate sequences of the `K`-stop
/// index: every sequence of one to `k` distinct stops from the domain
/// whose first stop is not the current configuration, and nothing else.
pub proof fn lemma_enumerates_exactly_the_candidates(domain: Seq<usize>, current: usize, k: nat)
    ensures
        forall|s: Seq<usize>| #[trigger] preorder(domain, current, k, Seq::empty()).contains(s)
            <==> is_candidate(domain, current, k, s),
{
    let e = Seq::<usize>::empty();
    assert(is_partial(domain, current, k, e));
    lemma_preorder_sound(domain, current, k, e);
    assert forall|s: Seq<usize>| is_candidate(domain, current, k, s) implies #[trigger] preorder(
        domain,
        current,
        k,
        Seq::empty(),
    ).contains(s) by {
        assert(s.take(0) =~= e);
        lemma_preorder_complete(domain, current, k, e, s);
    }
}

/// The sequences the `K`-stop index scores at `current`, in the order it
/// scores them: every sequence of `1..=k_max` distinct stops from `domain`
/// whose first stop is not `current`, in depth-first preorder, the first
/// `cap` of them; a `cap` of zero scores one, as long as one exists.
pub fn enumerate_sequences(n: usize, current: usize, domain: &[usize], k_max: usize, cap: usize) -> (r: Vec<Vec<usize>>)
    requires
        forall|i: int| 0 <= i < domain@.len() ==> domain@[i] < n,
    ensures
        r@.map_values(|s: Vec<usize>| s@) == append_capped(
            Seq::empty(),
            preorder(domain@, current, k_max as nat, Seq::empty()),
            if cap == 0 {
                1
            } else {
                cap as nat
            },
        ),
{
    let cap = if cap == 0 {
        1
    } else {
        cap
    };
    let mut stack: Vec<usize> = Vec::new();
    let mut used: Vec<bool> = Vec::new();
    let mut i: usize = 0;
    while i < n
        invariant
            i <= n,
            used@.len() == i,
            forall|j: int| 0 <= j < i ==> !used@[j],
        decreases n - i,
    {
        used.push(false);
        i = i + 1;
    }
    let mut out: Vec<Vec<usize>> = Vec::new();
    assert(out@.map_values(|s: Vec<usize>| s@) =~= Seq::<Seq<usize>>::empty());
    visit(domain, current, k_max, cap, &mut stack, &mut used, &mut out);
    out
}


/// The transit-serving variant serves on arrival at its locked target
/// while a job waits there, before anything is scored.
pub open spec fn transit_arrival(transit: bool, locked_target: Option<usize>, current: usize, queue_lens: Seq<usize>) -> bool {
    transit && locked_target == Some(current) && queue_lens[current as int] > 0
}

/// Whether the transit-serving variant serves on arrival at `current`.
pub fn serves_on_arrival(transit: bool, locked_target: Option<usize>, current: usize, queue_lens: &[usize]) -> (r: bool)
    requires
        current < queue_lens@.len(),
    ensures
        r == transit_arrival(transit, locked_target, current, queue_lens@),
        r <==> (transit && locked_target == Some(current) && queue_lens@[current as int] > 0),
{
    transit && locked_target == Some(current) && queue_lens[current] > 0
}

/// How a `K`-stop decision ends. `chosen` is the first stop of the best
/// eligible sequence, if any (none when the domain is empty or no sequence
/// is eligible); `catch_opens` is the transit guard `w_c Q_c μ_c >= η ψ` of
/// that sequence; `next_hops` are the first hops from `current`.
///
/// On arrival at its lock with work there the transit variant serves. With
/// no stop chosen the server serves here or waits. The transit variant
/// serves a crossed configuration with work when its guard opens. A stop
/// at the current configuration, or one with no first hop, falls back to
/// serving or waiting. Otherwise the server takes the first hop; the
/// transit variant locks the stop, the plain one locks the hop, so that it
/// replans at the neighbour.
pub open spec fn tian_act_spec(
    current: usize,
    queue_lens: Seq<usize>,
    transit: bool,
    locked_target: Option<usize>,
    chosen: Option<usize>,
    catch_opens: bool,
    next_hops: Seq<Option<usize>>,
) -> Step {
    if transit_arrival(transit, locked_target, current, queue_lens) {
        Step::Serve
    } else {
        match chosen {
            None => serve_or_idle(current, queue_lens),
            Some(t) => if transit && (locked_target matches Some(l) && l != current)
                && queue_lens[current as int] > 0 && catch_opens {
                Step::Serve
            } else if t == current {
                serve_or_idle(current, queue_lens)
            } else {
                match next_hops[t as int] {
                    None => serve_or_idle(current, queue_lens),
                    Some(h) => Step::Move { hop: h, lock: Some(if transit { t } else { h }) },
                }
            },
        }
    }
}

/// End a `K`-stop decision at `current`.
pub fn act(
    current: usize,
    queue_lens: &[usize],
    transit: bool,
    locked_target: Option<usize>,
    chosen: Option<usize>,
    catch_opens: bool,
    next_hops: &[Option<usize>],
) -> (r: Step)
    requires
        current < queue_lens@.len(),
        chosen matches Some(t) ==> t < next_hops@.len(),
    ensures
        r == tian_act_spec(current, queue_lens@, transit, locked_target, chosen, catch_opens, next_hops@),
        tian_step_rule(current, queue_lens@, transit, locked_target, chosen, catch_opens, next_hops@, r),
{
    if serves_on_arrival(transit, locked_target, current, queue_lens) {
        return Step::Serve;
    }
    match chosen {
        None => serve_or_idle_here(current, queue_lens),
        Some(t) => {
            let away = match locked_target {
                Some(l) => l != current,
                None => false,
            };
            if transit && away && queue_lens[current] > 0 && catch_opens {
                Step::Serve
            } else if t == current {
                serve_or_idle_here(current, queue_lens)
            } else {
                match next_hops[t] {
                    None => serve_or_idle_here(current, queue_lens),
                    Some(h) => Step::Move { hop: h, lock: Some(if transit { t } else { h }) },
                }
            }
        },
    }
}

/// The `K`-stop router serves only where a job waits and waits only where
/// none does; a move goes to another stop than the current one; the
/// transit variant serves on arrival at its lock and keeps the stop as its
/// lock, while the plain variant locks the hop it takes.
pub proof fn lemma_tian_act(
    current: usize,
    queue_lens: Seq<usize>,
    transit: bool,
    locked_target: Option<usize>,
    chosen: Option<usize>,
    catch_opens: bool,
    next_hops: Seq<Option<usize>>,
)
    requires
        current < queue_lens.len(),
    ensures
        ({
            let r = tian_act_spec(current, queue_lens, transit, locked_target, chosen, catch_opens, next_hops);
            &&& r == Step::Serve ==> queue_lens[current as int] > 0
            &&& r == Step::Idle ==> queue_lens[current as int] == 0
            &&& transit_arrival(transit, locked_target, current, queue_lens) ==> r == Step::Serve
            &&& r matches Step::Move { hop, lock } ==> chosen matches Some(t) && t != current
                && next_hops[t as int] == Some(hop)
                && lock == Some(if transit { t } else { hop })
        }),
{
}


/// How a `K`-stop decision ends, stated case by case, `q` the queue here:
///   * the transit variant at its lock with `q > 0` serves;
///   * with no stop chosen, it serves when `q > 0` and waits otherwise;
///   * the transit variant crossing a configuration with `q > 0` on the
///     way to a lock elsewhere serves when its guard opens, whatever stop
///     was chosen;
///   * otherwise a chosen stop elsewhere with a first hop `h` gives a move
///     to `h`, locking the stop (transit) or `h` (plain);
///   * otherwise it serves when `q > 0` and waits otherwise;
/// and it never serves an empty queue nor waits by a nonempty one.
pub open spec fn tian_step_rule(
    current: usize,
    queue_lens: Seq<usize>,
    transit: bool,
    locked_target: Option<usize>,
    chosen: Option<usize>,
    catch_opens: bool,
    next_hops: Seq<Option<usize>>,
    r: Step,
) -> bool {
    let here = queue_lens[current as int] > 0;
    let at_lock = transit && locked_target == Some(current) && here;
    let catch = transit && (locked_target matches Some(l) && l != current) && here && catch_opens;
    let fallback = if here {
        Step::Serve
    } else {
        Step::Idle
    };
    &&& at_lock ==> r == Step::Serve
    &&& chosen is None ==> r == fallback
    &&& chosen is Some && catch ==> r == Step::Serve
    &&& match chosen {
        Some(t) => !at_lock && !catch ==> r == (if t != current && next_hops[t as int] is Some {
            Step::Move {
                hop: next_hops[t as int].unwrap(),
                lock: Some(if transit { t } else { next_hops[t as int].unwrap() }),
            }
        } else {
            fallback
        }),
        None => true,
    }
    &&& r == Step::Serve ==> here
    &&& r == Step::Idle ==> !here
}

/// Every `K`-stop decision follows the rule: serve on arrival at the lock
/// with work, catch work in transit when the guard opens whatever stop was
/// chosen, otherwise hop toward a chosen stop elsewhere, and otherwise
/// serve or wait by the queue here.
pub proof fn lemma_tian_step_rule(
    current: usize,
    queue_lens: Seq<usize>,
    transit: bool,
    locked_target: Option<usize>,
    chosen: Option<usize>,
    catch_opens: bool,
    next_hops: Seq<Option<usize>>,
)
    requires
        current < queue_lens.len(),
    ensures
        tian_step_rule(
            current,
            queue_lens,
            transit,
            locked_target,
            chosen,
            catch_opens,
            next_hops,
            tian_act_spec(current, queue_lens, transit, locked_target, chosen, catch_opens, next_hops),
        ),
{
}

} // verus!
