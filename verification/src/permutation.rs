//! Column permutations: how they are built from column importance, stored,
//! and applied to weights and activations.
//!
//! Importance is given as the bit pattern of a non-negative floating-point
//! number. Such bit patterns order as the numbers do.

use std::collections::HashMap;
use vstd::prelude::*;

use crate::bytes::{copied, law_le32_round_trip, le32, le32_bytes, push_le32, read_le32};
use crate::text::{lower_is, lower_seq, same};
use crate::types::MAGIC_PERM;

verus! {

/// `p` lists each of the numbers below `k` once.
pub open spec fn is_permutation(p: Seq<usize>, k: int) -> bool {
    &&& p.len() == k
    &&& forall|i: int| 0 <= i < k ==> #[trigger] p[i] < k
    &&& forall|i: int, j: int| 0 <= i < j < k ==> #[trigger] p[i] != #[trigger] p[j]
}

// ── ordering by importance ─────────────────────────────────────────────────

/// Column `a` comes before column `b`: it is more important, or as important
/// and to the left.
pub open spec fn ahead(keys: Seq<u64>, a: usize, b: usize) -> bool {
    keys[a as int] > keys[b as int] || (keys[a as int] == keys[b as int] && a < b)
}

/// The columns of `p` stand in descending order of importance.
pub open spec fn ranked(keys: Seq<u64>, p: Seq<usize>) -> bool {
    forall|i: int, j: int| 0 <= i < j < p.len() ==> ahead(keys, #[trigger] p[i], #[trigger] p[j])
}

/// `p` lists each of the numbers from `from` up to `to` once.
pub open spec fn lists_range(p: Seq<usize>, from: int, to: int) -> bool {
    &&& p.len() == to - from
    &&& forall|i: int| 0 <= i < p.len() ==> from <= #[trigger] p[i] < to
    &&& forall|i: int, j: int| 0 <= i < j < p.len() ==> #[trigger] p[i] != #[trigger] p[j]
}

/// The columns from `from` up to `to` in descending order of importance.
fn rank_range(keys: &[u64], from: usize, to: usize) -> (p: Vec<usize>)
    requires
        from <= to <= keys@.len(),
    ensures
        lists_range(p@, from as int, to as int),
        ranked(keys@, p@),
{
    let mut p: Vec<usize> = Vec::new();
    let mut c: usize = from;
    while c < to
        invariant
            from <= c <= to <= keys@.len(),
            lists_range(p@, from as int, c as int),
            ranked(keys@, p@),
        decreases to - c,
    {
        let mut at: usize = p.len();
        let ghost before = p@;
        while at > 0 && keys[p[at - 1]] < keys[c]
            invariant
                from <= c < to <= keys@.len(),
                at <= p@.len(),
                p@ == before,
                lists_range(p@, from as int, c as int),
                forall|i: int| at <= i < p@.len() ==> keys@[#[trigger] p@[i] as int] < keys@[c as int],
            decreases at,
        {
            at -= 1;
        }
        p.insert(at, c);
        proof {
            let now = p@;
            assert forall|i: int, j: int| 0 <= i < j < now.len() implies ahead(
                keys@,
                #[trigger] now[i],
                #[trigger] now[j],
            ) && now[i] != now[j] by {
                let oi = if i < at { i } else { i - 1 };
                let oj = if j < at { j } else { j - 1 };
                if i != at {
                    assert(now[i] == before[oi]);
                }
                if j != at {
                    assert(now[j] == before[oj]);
                }
                if i != at && j != at {
                    assert(ahead(keys@, before[oi], before[oj]));
                } else if j == at && at > 0 {
                    let last = before[at - 1];
                    if oi < at - 1 {
                        assert(ahead(keys@, before[oi], last));
                    }
                }
            }
            assert forall|i: int| 0 <= i < now.len() implies from <= #[trigger] now[i] < c + 1 by {
                if i < at {
                    assert(now[i] == before[i]);
                } else if i > at {
                    assert(now[i] == before[i - 1]);
                }
            }
        }
        c += 1;
    }
    p
}

/// The columns in descending order of importance, equally important ones from
/// left to right.
pub fn build_column_permutation(norms: &[u64]) -> (p: Vec<usize>)
    ensures
        is_permutation(p@, norms@.len() as int),
        ranked(norms@, p@),
{
    rank_range(norms, 0, norms.len())
}

/// Columns that a block-wise permutation keeps together.
pub const PERM_BLOCK: usize = 64;

/// Every column of `p` is in its block, and each block is in descending order of
/// importance.
pub open spec fn block_ranked(keys: Seq<u64>, p: Seq<usize>) -> bool {
    &&& forall|i: int|
        0 <= i < p.len() ==> #[trigger] p[i] as int / PERM_BLOCK as int == i / PERM_BLOCK as int
    &&& forall|i: int, j: int|
        0 <= i < j < p.len() && i / PERM_BLOCK as int == j / PERM_BLOCK as int ==> ahead(
            keys,
            #[trigger] p[i],
            #[trigger] p[j],
        )
}

/// The columns in descending order of importance within each block of
/// `PERM_BLOCK`, no column leaving its block. Where the columns are not a whole
/// number of blocks the order is over all of them.
pub fn build_block_wise_permutation(norms: &[u64]) -> (p: Vec<usize>)
    ensures
        is_permutation(p@, norms@.len() as int),
        norms@.len() % PERM_BLOCK as nat != 0 ==> ranked(norms@, p@),
        norms@.len() % PERM_BLOCK as nat == 0 ==> block_ranked(norms@, p@),
{
    let k: usize = norms.len();
    if k % PERM_BLOCK != 0 {
        return build_column_permutation(norms);
    }
    let mut p: Vec<usize> = Vec::new();
    let mut start: usize = 0;
    while start < k
        invariant
            k == norms@.len(),
            k % PERM_BLOCK == 0,
            start % PERM_BLOCK == 0,
            start <= k,
            lists_range(p@, 0, start as int),
            block_ranked(norms@, p@),
        decreases k - start,
    {
        let local = rank_range(norms, start, start + PERM_BLOCK);
        let ghost before = p@;
        let mut i: usize = 0;
        while i < PERM_BLOCK
            invariant
                i <= PERM_BLOCK,
                local@.len() == PERM_BLOCK,
                p@ == before + local@.take(i as int),
            decreases PERM_BLOCK - i,
        {
            p.push(local[i]);
            assert(local@.take(i + 1) =~= local@.take(i as int).push(local@[i as int]));
            i += 1;
        }
        proof {
            assert(local@.take(i as int) =~= local@);
            let now = p@;
            assert(now == before + local@);
            assert forall|a: int| 0 <= a < now.len() implies #[trigger] now[a] as int
                / PERM_BLOCK as int == a / PERM_BLOCK as int && now[a] < start + PERM_BLOCK by {
                if a < start {
                    assert(now[a] == before[a]);
                } else {
                    assert(now[a] == local@[a - start]);
                }
            }
            assert forall|a: int, b: int| 0 <= a < b < now.len() implies {
                &&& #[trigger] now[a] != #[trigger] now[b]
                &&& a / PERM_BLOCK as int == b / PERM_BLOCK as int ==> ahead(
                    norms@,
                    now[a],
                    now[b],
                )
            } by {
                if b < start {
                    assert(now[a] == before[a] && now[b] == before[b]);
                } else if a >= start {
                    assert(now[a] == local@[a - start] && now[b] == local@[b - start]);
                } else {
                    assert(now[a] == before[a] && now[b] == local@[b - start]);
                }
            }
        }
        start += PERM_BLOCK;
    }
    p
}

// ── pivoting ───────────────────────────────────────────────────────────────

/// How many columns of `k` are chosen by pivoting: all of few, fewer of many.
pub open spec fn qr_steps_spec(k: int) -> int {
    if k <= 64 {
        k
    } else if k <= 256 {
        k * 7 / 8
    } else if k <= 512 {
        k * 3 / 4
    } else if k <= 1024 {
        k * 2 / 3
    } else if k <= 2048 {
        k / 2
    } else if k / 4 < 256 {
        256
    } else if k / 4 > 512 {
        512
    } else {
        k / 4
    }
}

/// How many columns of `k` are chosen by pivoting.
pub fn qr_steps(k: usize) -> (n: usize)
    ensures
        n == qr_steps_spec(k as int),
        n <= k,
{
    if k <= 64 {
        k
    } else if k <= 256 {
        (k * 7) / 8
    } else if k <= 512 {
        (k * 3) / 4
    } else if k <= 1024 {
        (k * 2) / 3
    } else if k <= 2048 {
        k / 2
    } else if k / 4 < 256 {
        256
    } else if k / 4 > 512 {
        512
    } else {
        k / 4
    }
}

/// Bit pattern of the norm (one ten-billionth) up to which a pivot leaves the
/// other columns as they are.
pub const NEGLIGIBLE_NORM: u64 = 0x3DDB_7CDF_D9D7_BDBB;

/// `m` is the first position, from `s` on, with the largest norm.
pub open spec fn leads(n: Seq<u64>, s: int, m: int) -> bool {
    &&& s <= m < n.len()
    &&& forall|j: int| s <= j < n.len() ==> #[trigger] n[j] <= n[m]
    &&& forall|j: int| s <= j < m ==> #[trigger] n[j] < n[m]
}

/// A pivoting run in between two steps: the order of the columns so far, and
/// their norms in that order.
pub type PivotState = (Seq<usize>, Seq<u64>);

/// The norms from `from` on are those of `n` after one weakening, or unchanged
/// where `on` is false. The norms before stay.
pub open spec fn tail_weakened<F: Fn(u64) -> u64>(
    n: Seq<u64>,
    after: Seq<u64>,
    from: int,
    on: bool,
    weaken: F,
) -> bool {
    &&& after.len() == n.len()
    &&& forall|j: int| 0 <= j < from && j < n.len() ==> #[trigger] after[j] == n[j]
    &&& forall|j: int|
        from <= j < n.len() ==> if on {
            call_ensures(weaken, (n[j],), #[trigger] after[j])
        } else {
            after[j] == n[j]
        }
}

/// One step at position `s`: the largest remaining column comes to `s`; unless
/// it is negligible the columns after it are weakened.
pub open spec fn pivot_step<F: Fn(u64) -> u64>(
    a: PivotState,
    b: PivotState,
    s: int,
    weaken: F,
) -> bool {
    exists|m: int|
        {
            &&& #[trigger] leads(a.1, s, m)
            &&& b.0 == swapped(a.0, s, m)
            &&& tail_weakened(swapped(a.1, s, m), b.1, s + 1, a.1[m] > NEGLIGIBLE_NORM, weaken)
        }
}

/// The states of a pivoting run of `n` steps over columns with these norms.
pub open spec fn pivot_run<F: Fn(u64) -> u64>(
    trace: Seq<PivotState>,
    n: int,
    norms: Seq<u64>,
    weaken: F,
) -> bool {
    &&& trace.len() == n + 1
    &&& trace[0] == (Seq::new(norms.len(), |i: int| i as usize), norms)
    &&& forall|i: int|
        0 <= i < n ==> pivot_step(#[trigger] trace[i], trace[i + 1], i, weaken)
}

/// `p` keeps the first `steps` columns of the state `a` and has the others in
/// descending order of their norms.
pub open spec fn tail_ranked(p: Seq<usize>, a: PivotState, steps: int) -> bool {
    &&& p.len() == a.0.len()
    &&& p.take(steps) == a.0.take(steps)
    &&& exists|order: Seq<usize>|
        {
            &&& lists_range(order, steps, a.1.len() as int)
            &&& #[trigger] ranked(a.1, order)
            &&& forall|i: int|
                0 <= i < order.len() ==> #[trigger] p[steps + i] == a.0[order[i] as int]
        }
}

/// How many pivots are chosen from `k` columns of `rows` rows.
pub open spec fn pivots(rows: int, k: int) -> int {
    if rows < qr_steps_spec(k) {
        rows
    } else {
        qr_steps_spec(k)
    }
}

/// Brings the largest remaining column, the leftmost of equal ones, to `s`.
/// Returns its norm.
fn pivot(perm: &mut Vec<usize>, norms: &mut Vec<u64>, s: usize) -> (top: u64)
    requires
        is_permutation(old(perm)@, old(norms)@.len() as int),
        s < old(norms)@.len(),
    ensures
        is_permutation(final(perm)@, final(norms)@.len() as int),
        exists|m: int|
            {
                &&& #[trigger] leads(old(norms)@, s as int, m)
                &&& final(norms)@ == swapped(old(norms)@, s as int, m)
                &&& final(perm)@ == swapped(old(perm)@, s as int, m)
                &&& top == old(norms)@[m]
            },
{
    let ghost n = norms@;
    let ghost p = perm@;
    let k: usize = norms.len();
    let mut m: usize = s;
    let mut j: usize = s + 1;
    while j < k
        invariant
            k == n.len(),
            norms@ == n,
            s <= m < j <= k,
            forall|i: int| s <= i < j ==> #[trigger] n[i] <= n[m as int],
            forall|i: int| s <= i < m ==> #[trigger] n[i] < n[m as int],
        decreases k - j,
    {
        if norms[j] > norms[m] {
            m = j;
        }
        j += 1;
    }
    let top: u64 = norms[m];
    let front: u64 = norms[s];
    norms.set(m, front);
    norms.set(s, top);
    let top_column: usize = perm[m];
    let front_column: usize = perm[s];
    perm.set(m, front_column);
    perm.set(s, top_column);
    proof {
        assert(leads(n, s as int, m as int));
        assert(norms@ =~= swapped(n, s as int, m as int));
        assert(perm@ =~= swapped(p, s as int, m as int));
        assert forall|a: int, b: int| 0 <= a < b < k implies #[trigger] perm@[a]
            != #[trigger] perm@[b] by {
            let oa = if a == s { m as int } else if a == m { s as int } else { a };
            let ob = if b == s { m as int } else if b == m { s as int } else { b };
            assert(perm@[a] == p[oa] && perm@[b] == p[ob]);
            assert(oa != ob);
            if oa < ob {
                assert(p[oa] != p[ob]);
            } else {
                assert(p[ob] != p[oa]);
            }
        }
    }
    top
}

/// Weakens the norms from `from` on.
fn weaken_tail<F: Fn(u64) -> u64>(norms: &mut Vec<u64>, from: usize, weaken: &F)
    requires
        from <= old(norms)@.len(),
        forall|n: u64| call_requires(weaken, (n,)),
    ensures
        tail_weakened(old(norms)@, final(norms)@, from as int, true, *weaken),
{
    let ghost n = norms@;
    let k: usize = norms.len();
    let mut j: usize = from;
    while j < k
        invariant
            k == n.len(),
            from <= j <= k,
            norms@.len() == k,
            forall|v: u64| call_requires(weaken, (v,)),
            forall|i: int| 0 <= i < from ==> #[trigger] norms@[i] == n[i],
            forall|i: int| j <= i < k ==> #[trigger] norms@[i] == n[i],
            forall|i: int|
                from <= i < j ==> call_ensures(*weaken, (n[i],), #[trigger] norms@[i]),
        decreases k - j,
    {
        let w: u64 = weaken(norms[j]);
        norms.set(j, w);
        j += 1;
    }
}

/// The order of the columns after pivoting: the first `steps` columns as they
/// stand, then the others in descending order of their norms.
fn rank_tail(perm: &Vec<usize>, norms: &Vec<u64>, steps: usize) -> (p: Vec<usize>)
    requires
        is_permutation(perm@, norms@.len() as int),
        steps <= norms@.len(),
    ensures
        is_permutation(p@, norms@.len() as int),
        tail_ranked(p@, (perm@, norms@), steps as int),
{
    let k: usize = norms.len();
    let order = rank_range(norms.as_slice(), steps, k);
    let mut p: Vec<usize> = Vec::new();
    let mut i: usize = 0;
    while i < k
        invariant
            is_permutation(perm@, norms@.len() as int),
            k == norms@.len(),
            i <= k,
            steps <= k,
            lists_range(order@, steps as int, k as int),
            p@.len() == i,
            forall|j: int|
                0 <= j < i ==> #[trigger] p@[j] == perm@[if j < steps {
                    j
                } else {
                    order@[j - steps] as int
                }],
        decreases k - i,
    {
        if i < steps {
            p.push(perm[i]);
        } else {
            p.push(perm[order[i - steps]]);
        }
        i += 1;
    }
    proof {
        let n = steps as int;
        assert forall|a: int, b: int| 0 <= a < b < k implies #[trigger] p@[a] != #[trigger] p@[b] by {
            let oa = if a < n { a } else { order@[a - n] as int };
            let ob = if b < n { b } else { order@[b - n] as int };
            if a >= n {
                assert(order@[a - n] != order@[b - n]);
            }
            assert(oa != ob);
            if oa < ob {
                assert(perm@[oa] != perm@[ob]);
            } else {
                assert(perm@[ob] != perm@[oa]);
            }
        }
        assert(p@.take(n) =~= perm@.take(n));
        assert forall|j: int| 0 <= j < order@.len() implies #[trigger] p@[n + j]
            == perm@[order@[j] as int] by {
            assert(p@[n + j] == perm@[order@[n + j - n] as int]);
        }
        let a: PivotState = (perm@, norms@);
        assert(ranked(a.1, order@));
        assert(tail_ranked(p@, a, n));
    }
    p
}

/// Orders columns by repeatedly choosing the largest and weakening the rest,
/// then ranking what was not chosen. `weaken` says what one step leaves of a
/// norm.
pub fn qr_pivot_permutation<F: Fn(u64) -> u64>(rows: usize, norms: Vec<u64>, weaken: F) -> (p: Vec<
    usize,
>)
    requires
        forall|n: u64| call_requires(weaken, (n,)),
    ensures
        is_permutation(p@, norms@.len() as int),
        exists|trace: Seq<PivotState>|
            {
                &&& #[trigger] pivot_run(
                    trace,
                    pivots(rows as int, norms@.len() as int),
                    norms@,
                    weaken,
                )
                &&& tail_ranked(p@, trace.last(), qr_steps_spec(norms@.len() as int))
            },
{
    let ghost start = norms@;
    let mut norms = norms;
    let k: usize = norms.len();
    let mut perm: Vec<usize> = Vec::new();
    let mut i: usize = 0;
    while i < k
        invariant
            i <= k,
            perm@.len() == i,
            forall|j: int| 0 <= j < i ==> #[trigger] perm@[j] == j,
        decreases k - i,
    {
        perm.push(i);
        i += 1;
    }
    let steps: usize = qr_steps(k);
    let limit: usize = if rows < steps { rows } else { steps };
    let ghost mut trace: Seq<PivotState> = seq![(perm@, norms@)];
    proof {
        assert(perm@ =~= Seq::new(start.len(), |i: int| i as usize));
    }
    let mut step: usize = 0;
    while step < limit
        invariant
            forall|n: u64| call_requires(weaken, (n,)),
            k == start.len(),
            norms@.len() == k,
            is_permutation(perm@, k as int),
            step <= limit <= steps <= k,
            pivot_run(trace, step as int, start, weaken),
            trace.last() == (perm@, norms@),
        decreases limit - step,
    {
        let ghost before = (perm@, norms@);
        let top: u64 = pivot(&mut perm, &mut norms, step);
        let ghost turned = norms@;
        if top > NEGLIGIBLE_NORM {
            weaken_tail(&mut norms, step + 1, &weaken);
        }
        proof {
            let after = (perm@, norms@);
            let m = choose|m: int|
                {
                    &&& #[trigger] leads(before.1, step as int, m)
                    &&& turned == swapped(before.1, step as int, m)
                    &&& after.0 == swapped(before.0, step as int, m)
                    &&& top == before.1[m]
                };
            assert(leads(before.1, step as int, m));
            assert(tail_weakened(turned, after.1, step + 1, top > NEGLIGIBLE_NORM, weaken));
            assert(pivot_step(before, after, step as int, weaken));
            let longer = trace.push(after);
            assert forall|j: int| 0 <= j < step + 1 implies pivot_step(
                #[trigger] longer[j],
                longer[j + 1],
                j,
                weaken,
            ) by {
                if j < step {
                    assert(longer[j] == trace[j] && longer[j + 1] == trace[j + 1]);
                    assert(pivot_step(trace[j], trace[j + 1], j, weaken));
                }
            }
            trace = longer;
        }
        step += 1;
    }
    let p = rank_tail(&perm, &norms, steps);
    assert(pivot_run(trace, pivots(rows as int, start.len() as int), start, weaken));
    p
}

/// `s` with the elements at `i` and `j` exchanged.
pub open spec fn swapped<T>(s: Seq<T>, i: int, j: int) -> Seq<T> {
    s.update(j, s[i]).update(i, s[j])
}

// ── strategies ─────────────────────────────────────────────────────────────

/// How a column permutation is chosen.
#[derive(Debug, Clone, Copy, PartialEq, Eq, Structural)]
pub enum PermStrategy {
    Block,
    L2,
    Svd,
    Qr,
}

/// How important a column is.
#[derive(Debug, Clone, Copy, PartialEq, Eq, Structural)]
pub enum ColumnMeasure {
    /// Its Euclidean norm, in single precision.
    SingleNorm,
    /// Its Euclidean norm, in double precision.
    DoubleNorm,
    /// The variance of its values.
    Variance,
}

/// `p` orders columns of this importance as `strategy` does.
pub open spec fn ordered_by<F: Fn(u64) -> u64>(
    strategy: PermStrategy,
    p: Seq<usize>,
    rows: int,
    importance: Seq<u64>,
    weaken: F,
) -> bool {
    match strategy {
        PermStrategy::Block => if importance.len() % PERM_BLOCK as nat == 0 {
            block_ranked(importance, p)
        } else {
            ranked(importance, p)
        },
        PermStrategy::L2 | PermStrategy::Svd => ranked(importance, p),
        PermStrategy::Qr => exists|trace: Seq<PivotState>|
            {
                &&& #[trigger] pivot_run(
                    trace,
                    pivots(rows, importance.len() as int),
                    importance,
                    weaken,
                )
                &&& tail_ranked(p, trace.last(), qr_steps_spec(importance.len() as int))
            },
    }
}

impl PermStrategy {
    /// The strategy that the setting `s` names, small and capital letters
    /// alike; block-wise when it is absent or names none.
    pub open spec fn spec_from_setting(s: Option<Seq<char>>) -> PermStrategy {
        match s {
            Some(t) => {
                let l = lower_seq(t);
                if l == "l2"@ || l == "column"@ {
                    PermStrategy::L2
                } else if l == "svd"@ || l == "variance"@ {
                    PermStrategy::Svd
                } else if l == "qr"@ || l == "qr-pivot"@ {
                    PermStrategy::Qr
                } else {
                    PermStrategy::Block
                }
            },
            None => PermStrategy::Block,
        }
    }

    /// The strategy that a setting names.
    pub fn from_setting(setting: Option<&str>) -> (r: PermStrategy)
        ensures
            r == PermStrategy::spec_from_setting(
                match setting {
                    Some(t) => Some(t@),
                    None => None,
                },
            ),
    {
        proof {
            reveal_strlit("l2");
            reveal_strlit("column");
            reveal_strlit("svd");
            reveal_strlit("variance");
            reveal_strlit("qr");
            reveal_strlit("qr-pivot");
        }
        match setting {
            Some(t) => if lower_is(t, "l2") || lower_is(t, "column") {
                PermStrategy::L2
            } else if lower_is(t, "svd") || lower_is(t, "variance") {
                PermStrategy::Svd
            } else if lower_is(t, "qr") || lower_is(t, "qr-pivot") {
                PermStrategy::Qr
            } else {
                PermStrategy::Block
            },
            None => PermStrategy::Block,
        }
    }

    /// The strategy's name.
    pub fn name(self) -> (r: &'static str)
        ensures
            r@ == (match self {
                PermStrategy::Block => "blockwise"@,
                PermStrategy::L2 => "l2-norm"@,
                PermStrategy::Svd => "svd-importance"@,
                PermStrategy::Qr => "qr-pivot"@,
            }),
    {
        match self {
            PermStrategy::Block => "blockwise",
            PermStrategy::L2 => "l2-norm",
            PermStrategy::Svd => "svd-importance",
            PermStrategy::Qr => "qr-pivot",
        }
    }

    /// What the strategy takes for the importance of a column.
    pub fn measure(self) -> (m: ColumnMeasure)
        ensures
            m == (match self {
                PermStrategy::Block | PermStrategy::L2 => ColumnMeasure::SingleNorm,
                PermStrategy::Svd => ColumnMeasure::Variance,
                PermStrategy::Qr => ColumnMeasure::DoubleNorm,
            }),
    {
        match self {
            PermStrategy::Block | PermStrategy::L2 => ColumnMeasure::SingleNorm,
            PermStrategy::Svd => ColumnMeasure::Variance,
            PermStrategy::Qr => ColumnMeasure::DoubleNorm,
        }
    }

    /// Orders the columns of a matrix of `rows` rows by their importance, taken by
    /// the strategy's measure. `weaken` serves `Qr` alone.
    pub fn build<F: Fn(u64) -> u64>(self, rows: usize, importance: Vec<u64>, weaken: F) -> (p: Vec<
        usize,
    >)
        requires
            forall|n: u64| call_requires(weaken, (n,)),
        ensures
            is_permutation(p@, importance@.len() as int),
            ordered_by(self, p@, rows as int, importance@, weaken),
    {
        match self {
            PermStrategy::Block => build_block_wise_permutation(importance.as_slice()),
            PermStrategy::L2 | PermStrategy::Svd => build_column_permutation(
                importance.as_slice(),
            ),
            PermStrategy::Qr => qr_pivot_permutation(rows, importance, weaken),
        }
    }
}

/// Whether a setting switches permuting on: `1`, or `true` in any case.
pub fn permute_setting(setting: Option<&str>) -> (r: bool)
    ensures
        r == match setting {
            Some(t) => t@ == "1"@ || lower_seq(t@) == "true"@,
            None => false,
        },
{
    match setting {
        Some(t) => same(t, "1") || lower_is(t, "true"),
        None => false,
    }
}

/// The permutation that the attention projections of each layer share.
pub struct LayerPermCache {
    pub map: HashMap<u32, Vec<usize>>,
}

impl View for LayerPermCache {
    type V = Map<u32, Seq<usize>>;

    open spec fn view(&self) -> Map<u32, Seq<usize>> {
        self.map@.map_values(|p: Vec<usize>| p@)
    }
}

impl LayerPermCache {
    /// A cache that knows no layer.
    pub fn new() -> (c: LayerPermCache)
        ensures
            c@ == Map::<u32, Seq<usize>>::empty(),
    {
        broadcast use vstd::std_specs::hash::group_hash_axioms;

        let c = LayerPermCache { map: HashMap::new() };
        assert(c@ =~= Map::<u32, Seq<usize>>::empty());
        c
    }

    /// The permutation of a layer: the one known, or the one that `build` makes,
    /// which is then known.
    pub fn get_or_compute<B: FnOnce() -> Vec<usize>>(&mut self, layer_id: u32, build: B) -> (p: Vec<
        usize,
    >)
        requires
            call_requires(build, ()),
        ensures
            old(self)@.dom().contains(layer_id) ==> final(self)@ == old(self)@,
            !old(self)@.dom().contains(layer_id) ==> exists|fresh: Vec<usize>| #[trigger]
                call_ensures(build, (), fresh) && final(self)@ == old(self)@.insert(
                    layer_id,
                    fresh@,
                ),
            p@ == final(self)@[layer_id],
    {
        broadcast use vstd::std_specs::hash::group_hash_axioms;

        if let Some(p) = self.map.get(&layer_id) {
            return copied(p.as_slice());
        }
        let ghost before = self@;
        let fresh = build();
        let p = copied(fresh.as_slice());
        self.map.insert(layer_id, fresh);
        assert(self@ =~= before.insert(layer_id, p@));
        p
    }
}

// ── storage ────────────────────────────────────────────────────────────────

/// Why bytes do not store a permutation.
#[derive(Debug, Clone, Copy, PartialEq, Eq, Structural)]
pub enum PermError {
    /// Shorter than the magic number and the length.
    TooSmall,
    /// The magic number is another.
    BadMagic,
    /// The byte length is not that of as many indices as announced.
    Length { got: usize, expected: u64 },
}

/// The indices, each as four bytes, least significant byte first.
pub open spec fn index_bytes(p: Seq<usize>) -> Seq<u8>
    decreases p.len(),
{
    if p.len() == 0 {
        Seq::empty()
    } else {
        index_bytes(p.drop_last()) + le32_bytes(p.last() as int)
    }
}

/// How a permutation is stored: magic number, length, indices.
pub open spec fn perm_bytes(p: Seq<usize>) -> Seq<u8> {
    le32_bytes(MAGIC_PERM as int) + le32_bytes(p.len() as int) + index_bytes(p)
}

/// What is wrong with bytes that should store a permutation.
pub open spec fn perm_fault(b: Seq<u8>) -> Option<PermError> {
    if b.len() < 8 {
        Some(PermError::TooSmall)
    } else if le32(b, 0) != MAGIC_PERM {
        Some(PermError::BadMagic)
    } else if b.len() != 8 + 4 * le32(b, 4) {
        Some(
            PermError::Length {
                got: b.len() as usize,
                expected: (8 + 4 * le32(b, 4)) as u64,
            },
        )
    } else {
        None
    }
}

/// The indices that stand after the magic number and the length.
pub open spec fn stored_indices(b: Seq<u8>) -> Seq<usize> {
    Seq::new(le32(b, 4) as nat, |i: int| le32(b, 8 + 4 * i) as usize)
}

/// Tests whether bytes store a permutation, without reading its indices.
pub fn check_perm(b: &[u8]) -> (r: Result<(), PermError>)
    ensures
        match r {
            Ok(_) => perm_fault(b@) is None,
            Err(e) => perm_fault(b@) == Some(e),
        },
{
    if b.len() < 8 {
        return Err(PermError::TooSmall);
    }
    if read_le32(b, 0) != MAGIC_PERM {
        return Err(PermError::BadMagic);
    }
    let expected: u64 = 8 + 4 * read_le32(b, 4) as u64;
    if b.len() as u64 != expected {
        return Err(PermError::Length { got: b.len(), expected });
    }
    Ok(())
}

/// Reads a stored permutation. The indices are taken as they stand.
pub fn parse_perm(b: &[u8]) -> (r: Result<Vec<usize>, PermError>)
    ensures
        match r {
            Ok(p) => perm_fault(b@) is None && p@ == stored_indices(b@),
            Err(e) => perm_fault(b@) == Some(e),
        },
{
    match check_perm(b) {
        Ok(_) => {},
        Err(e) => {
            return Err(e);
        },
    }
    let n: usize = b.len();
    let k: usize = (n - 8) / 4;
    let mut p: Vec<usize> = Vec::new();
    let mut i: usize = 0;
    while i < k
        invariant
            n == b@.len(),
            n == 8 + 4 * k,
            k == le32(b@, 4),
            i <= k,
            p@.len() == i,
            forall|j: int| 0 <= j < i ==> #[trigger] p@[j] == le32(b@, 8 + 4 * j) as usize,
        decreases k - i,
    {
        p.push(read_le32(b, 8 + 4 * i) as usize);
        i += 1;
    }
    assert(p@ =~= stored_indices(b@));
    Ok(p)
}

/// Stores a permutation.
pub fn write_perm(p: &[usize]) -> (b: Vec<u8>)
    requires
        p@.len() <= u32::MAX,
        forall|i: int| 0 <= i < p@.len() ==> #[trigger] p@[i] <= u32::MAX,
    ensures
        b@ == perm_bytes(p@),
{
    let mut b: Vec<u8> = Vec::new();
    push_le32(&mut b, MAGIC_PERM);
    push_le32(&mut b, p.len() as u32);
    let ghost head = le32_bytes(MAGIC_PERM as int) + le32_bytes(p@.len() as int);
    assert(b@ =~= head);
    let mut i: usize = 0;
    assert(p@.take(0) =~= Seq::<usize>::empty());
    assert(b@ =~= head + index_bytes(p@.take(0)));
    while i < p.len()
        invariant
            i <= p@.len(),
            forall|j: int| 0 <= j < p@.len() ==> #[trigger] p@[j] <= u32::MAX,
            b@ == head + index_bytes(p@.take(i as int)),
        decreases p@.len() - i,
    {
        let ghost before = b@;
        push_le32(&mut b, p[i] as u32);
        proof {
            let now = p@.take(i + 1);
            assert(now.drop_last() =~= p@.take(i as int));
            assert(now.last() == p@[i as int]);
            assert(b@ =~= head + index_bytes(now));
        }
        i += 1;
    }
    assert(p@.take(i as int) =~= p@);
    b
}

proof fn lemma_index_bytes(p: Seq<usize>, i: int)
    requires
        0 <= i < p.len(),
        forall|j: int| 0 <= j < p.len() ==> #[trigger] p[j] <= u32::MAX,
    ensures
        index_bytes(p).len() == 4 * p.len(),
        le32(index_bytes(p), 4 * i) == p[i],
    decreases p.len(),
{
    let q = p.drop_last();
    lemma_index_bytes_len(q);
    if i < q.len() {
        lemma_index_bytes(q, i);
        assert(q[i] == p[i]);
    } else {
        law_le32_round_trip(index_bytes(q), p.last() as int, Seq::empty());
        assert(index_bytes(p) =~= index_bytes(q) + le32_bytes(p.last() as int) + Seq::<u8>::empty());
    }
}

proof fn lemma_index_bytes_len(p: Seq<usize>)
    ensures
        index_bytes(p).len() == 4 * p.len(),
    decreases p.len(),
{
    if p.len() > 0 {
        lemma_index_bytes_len(p.drop_last());
    }
}

/// A stored permutation is read back as it was.
pub proof fn law_perm_round_trip(p: Seq<usize>)
    requires
        p.len() <= u32::MAX,
        forall|i: int| 0 <= i < p.len() ==> #[trigger] p[i] <= u32::MAX,
    ensures
        perm_fault(perm_bytes(p)) is None,
        stored_indices(perm_bytes(p)) == p,
{
    let b = perm_bytes(p);
    let m = le32_bytes(MAGIC_PERM as int);
    let n = le32_bytes(p.len() as int);
    let x = index_bytes(p);
    law_le32_round_trip(Seq::empty(), MAGIC_PERM as int, n + x);
    assert(b =~= Seq::<u8>::empty() + m + (n + x));
    law_le32_round_trip(m, p.len() as int, x);
    lemma_index_bytes_len(p);
    assert forall|i: int| 0 <= i < p.len() implies le32(b, 8 + 4 * i) == #[trigger] p[i] by {
        lemma_index_bytes(p, i);
        let at = 8 + 4 * i;
        assert(b[at] == x[4 * i] && b[at + 1] == x[4 * i + 1] && b[at + 2] == x[4 * i + 2] && b[at
            + 3] == x[4 * i + 3]);
    }
    assert(stored_indices(b) =~= p);
}

// ── use ────────────────────────────────────────────────────────────────────

/// The rows of `k` columns of `src` with their columns taken in the order `p`.
pub open spec fn permuted<T>(src: Seq<T>, k: int, p: Seq<usize>) -> Seq<T> {
    Seq::new(src.len(), |i: int| src[i / k * k + p[i % k]])
}

/// Fills `dst` with the rows of `src`, their columns taken in the order `perm`.
/// What `dst` held before is lost.
pub fn apply_permutation_into<T: Copy>(
    src: &[T],
    batch: usize,
    k: usize,
    perm: &[usize],
    dst: &mut Vec<T>,
)
    requires
        src@.len() == batch * k,
        old(dst)@.len() == src@.len(),
        perm@.len() == k,
        forall|i: int| 0 <= i < k ==> #[trigger] perm@[i] < k,
    ensures
        final(dst)@ == permuted(src@, k as int, perm@),
{
    let total: usize = src.len();
    let mut i: usize = 0;
    while i < total
        invariant
            total == src@.len(),
            total == batch * k,
            dst@.len() == total,
            perm@.len() == k,
            forall|j: int| 0 <= j < k ==> #[trigger] perm@[j] < k,
            i <= total,
            forall|j: int|
                0 <= j < i ==> #[trigger] dst@[j] == src@[j / (k as int) * k + perm@[j % (
                k as int)]],
        decreases total - i,
    {
        proof {
            lemma_cell(i as int, batch as int, k as int);
        }
        let row: usize = i / k * k;
        dst.set(i, src[row + perm[i % k]]);
        i += 1;
    }
    assert(dst@ =~= permuted(src@, k as int, perm@));
}

/// Cell `i` of `rows` rows of `k` columns lies in a row that is inside.
proof fn lemma_cell(i: int, rows: int, k: int)
    requires
        0 <= i < rows * k,
        0 <= k,
        0 <= rows,
    ensures
        k > 0,
        0 <= i % k < k,
        0 <= i / k < rows,
        0 <= i / k * k,
        i / k * k + k <= rows * k,
        i == i / k * k + i % k,
{
    assert(k > 0) by (nonlinear_arith)
        requires
            0 <= i < rows * k,
            0 <= k,
            0 <= rows,
    ;
    vstd::arithmetic::div_mod::lemma_fundamental_div_mod(i, k);
    vstd::arithmetic::div_mod::lemma_mod_bound(i, k);
    let q = i / k;
    assert(k * q == q * k) by (nonlinear_arith);
    assert(0 <= q < rows) by (nonlinear_arith)
        requires
            0 <= i < rows * k,
            i == q * k + i % k,
            0 <= i % k < k,
            k > 0,
    ;
    assert(0 <= q * k && q * k + k <= rows * k) by (nonlinear_arith)
        requires
            0 <= q < rows,
            k > 0,
    ;
}

/// The rows of `data` with their columns taken in the order `perm`.
pub fn apply_column_permutation<T: Copy>(
    rows: usize,
    k: usize,
    data: &[T],
    perm: &[usize],
) -> (out: Vec<T>)
    requires
        data@.len() == rows * k,
        perm@.len() == k,
        forall|i: int| 0 <= i < k ==> #[trigger] perm@[i] < k,
    ensures
        out@ == permuted(data@, k as int, perm@),
{
    let mut out = copied(data);
    apply_permutation_into(data, rows, k, perm, &mut out);
    out
}

/// The order and the grouping in which numbers are added do not matter.
pub open spec fn adds<A>(plus: spec_fn(A, A) -> A) -> bool {
    &&& forall|a: A, b: A| #[trigger] plus(a, b) == plus(b, a)
    &&& forall|a: A, b: A, c: A| #[trigger] plus(plus(a, b), c) == plus(a, plus(b, c))
}

/// The numbers of `s`, added to `zero` one after the other.
pub open spec fn sum<A>(s: Seq<A>, zero: A, plus: spec_fn(A, A) -> A) -> A
    decreases s.len(),
{
    if s.len() == 0 {
        zero
    } else {
        plus(sum(s.drop_last(), zero, plus), s.last())
    }
}

/// The products of weights and activations, one by one.
pub open spec fn products<W, X, A>(w: Seq<W>, x: Seq<X>, times: spec_fn(W, X) -> A) -> Seq<A> {
    Seq::new(w.len(), |j: int| times(w[j], x[j]))
}

/// The dot product of a row of weights and a row of activations.
pub open spec fn dot<W, X, A>(
    w: Seq<W>,
    x: Seq<X>,
    times: spec_fn(W, X) -> A,
    zero: A,
    plus: spec_fn(A, A) -> A,
) -> A {
    sum(products(w, x, times), zero, plus)
}

/// Where adding `zero` changes nothing, the sum of numbers is that of the sums of
/// two parts of them.
pub proof fn law_sum_of_parts<A>(a: Seq<A>, b: Seq<A>, zero: A, plus: spec_fn(A, A) -> A)
    requires
        adds(plus),
        forall|v: A| #[trigger] plus(v, zero) == v,
    ensures
        sum(a + b, zero, plus) == plus(sum(a, zero, plus), sum(b, zero, plus)),
    decreases b.len(),
{
    if b.len() == 0 {
        assert(a + b =~= a);
    } else {
        law_sum_of_parts(a, b.drop_last(), zero, plus);
        assert((a + b).drop_last() =~= a + b.drop_last());
        assert((a + b).last() == b.last());
    }
}

proof fn lemma_sum_remove<A>(s: Seq<A>, j: int, zero: A, plus: spec_fn(A, A) -> A)
    requires
        0 <= j < s.len(),
        adds(plus),
    ensures
        sum(s, zero, plus) == plus(sum(s.remove(j), zero, plus), s[j]),
    decreases s.len(),
{
    let r = s.remove(j);
    if j == s.len() - 1 {
        assert(r =~= s.drop_last());
    } else {
        let less = s.drop_last();
        lemma_sum_remove(less, j, zero, plus);
        assert(r.drop_last() =~= less.remove(j));
        assert(r.last() == s.last());
        let t = sum(less.remove(j), zero, plus);
        assert(plus(plus(t, s[j]), s.last()) == plus(t, plus(s[j], s.last())));
        assert(plus(s[j], s.last()) == plus(s.last(), s[j]));
        assert(plus(plus(t, s.last()), s[j]) == plus(t, plus(s.last(), s[j])));
    }
}

/// A permutation of `k` columns has each of them somewhere.
pub proof fn law_permutation_covers(p: Seq<usize>, k: int, c: int) -> (j: int)
    requires
        is_permutation(p, k),
        0 <= c < k,
    ensures
        0 <= j < k,
        p[j] == c,
{
    if forall|j: int| 0 <= j < k ==> #[trigger] p[j] != c {
        let q = p.map_values(|u: usize| u as int);
        assert(q.no_duplicates()) by {
            assert forall|a: int, b: int| 0 <= a < q.len() && 0 <= b < q.len() && a != b implies q[a]
                != q[b] by {
                if a < b {
                    assert(p[a] != p[b]);
                } else {
                    assert(p[b] != p[a]);
                }
            }
        }
        q.unique_seq_to_set();
        let all = vstd::set_lib::set_int_range(0, k);
        vstd::set_lib::lemma_int_range(0, k);
        let rest = all.remove(c);
        assert(q.to_set().subset_of(rest)) by {
            assert forall|x: int| q.to_set().contains(x) implies rest.contains(x) by {
                let a = choose|a: int| 0 <= a < q.len() && q[a] == x;
                assert(p[a] == x);
            }
        }
        vstd::set_lib::lemma_len_subset(q.to_set(), rest);
        assert(false);
    }
    choose|j: int| 0 <= j < k && #[trigger] p[j] == c
}

proof fn lemma_sum_permuted<A>(v: Seq<A>, p: Seq<usize>, zero: A, plus: spec_fn(A, A) -> A)
    requires
        is_permutation(p, v.len() as int),
        adds(plus),
    ensures
        sum(Seq::new(p.len(), |i: int| v[p[i] as int]), zero, plus) == sum(v, zero, plus),
    decreases v.len(),
{
    let k = v.len() as int;
    let all = Seq::new(p.len(), |i: int| v[p[i] as int]);
    if k == 0 {
        assert(all =~= v);
    } else {
        let j = law_permutation_covers(p, k, k - 1);
        let q = p.remove(j);
        let u = v.drop_last();
        assert forall|a: int| 0 <= a < k - 1 implies #[trigger] q[a] < k - 1 by {
            let oa = if a < j { a } else { a + 1 };
            assert(q[a] == p[oa]);
            if oa < j {
                assert(p[oa] != p[j]);
            } else {
                assert(p[j] != p[oa]);
            }
        }
        assert forall|a: int, b: int| 0 <= a < b < k - 1 implies #[trigger] q[a]
            != #[trigger] q[b] by {
            let oa = if a < j { a } else { a + 1 };
            let ob = if b < j { b } else { b + 1 };
            assert(q[a] == p[oa] && q[b] == p[ob]);
            assert(p[oa] != p[ob]);
        }
        lemma_sum_permuted(u, q, zero, plus);
        lemma_sum_remove(all, j, zero, plus);
        assert(all.remove(j) =~= Seq::new(q.len(), |i: int| u[q[i] as int]));
    }
}

/// Permuting the columns of the weights and of the activations alike leaves the
/// dot product as it is, whatever numbers they are, as long as the order in which
/// they are added does not matter.
pub proof fn law_dot_permuted<W, X, A>(
    w: Seq<W>,
    x: Seq<X>,
    p: Seq<usize>,
    times: spec_fn(W, X) -> A,
    zero: A,
    plus: spec_fn(A, A) -> A,
)
    requires
        w.len() == x.len(),
        is_permutation(p, w.len() as int),
        adds(plus),
    ensures
        dot(permuted(w, w.len() as int, p), permuted(x, x.len() as int, p), times, zero, plus) == dot(
            w,
            x,
            times,
            zero,
            plus,
        ),
{
    let k = w.len() as int;
    let v = products(w, x, times);
    lemma_sum_permuted(v, p, zero, plus);
    let pw = permuted(w, k, p);
    let px = permuted(x, k, p);
    let now = products(pw, px, times);
    assert forall|i: int| 0 <= i < k implies #[trigger] now[i] == v[p[i] as int] by {
        vstd::arithmetic::div_mod::lemma_small_mod(i as nat, k as nat);
        vstd::arithmetic::div_mod::lemma_basic_div(i, k);
        assert(pw[i] == w[0 * k + p[i]]);
        assert(px[i] == x[0 * k + p[i]]);
    }
    assert(now =~= Seq::new(p.len(), |i: int| v[p[i] as int]));
}

/// Cell `j` of row `r` after permuting is the cell of that row that the
/// permutation names.
pub proof fn law_permuted_cell<T>(src: Seq<T>, rows: int, k: int, p: Seq<usize>, r: int, j: int)
    requires
        src.len() == rows * k,
        0 <= r < rows,
        0 <= j < k,
    ensures
        permuted(src, k, p).len() == rows * k,
        0 <= r * k + j < rows * k,
        permuted(src, k, p)[r * k + j] == src[r * k + p[j]],
{
    vstd::arithmetic::div_mod::lemma_fundamental_div_mod_converse(r * k + j, k, r, j);
    assert(0 <= r * k && r * k + k <= rows * k) by (nonlinear_arith)
        requires
            0 <= r < rows,
            0 < k,
    ;
}

/// Permuting the columns of all rows of the weights, and those of the
/// activations, leaves the dot product of every row as it is.
pub proof fn law_rows_keep_their_products<W, X, A>(
    data: Seq<W>,
    rows: int,
    k: int,
    x: Seq<X>,
    p: Seq<usize>,
    r: int,
    times: spec_fn(W, X) -> A,
    zero: A,
    plus: spec_fn(A, A) -> A,
)
    requires
        data.len() == rows * k,
        x.len() == k,
        is_permutation(p, k),
        0 <= r < rows,
        adds(plus),
    ensures
        0 <= r * k <= r * k + k <= rows * k,
        dot(permuted(data, k, p).subrange(r * k, r * k + k), permuted(x, k, p), times, zero, plus)
            == dot(data.subrange(r * k, r * k + k), x, times, zero, plus),
{
    assert(0 <= r * k && r * k + k <= rows * k) by (nonlinear_arith)
        requires
            0 <= r < rows,
            0 <= k,
    ;
    let row = data.subrange(r * k, r * k + k);
    law_dot_permuted(row, x, p, times, zero, plus);
    assert forall|j: int| 0 <= j < k implies permuted(row, k, p)[j] == permuted(
        data,
        k,
        p,
    )[r * k + j] by {
        law_permuted_cell(data, rows, k, p, r, j);
        law_permuted_cell(row, 1, k, p, 0, j);
    }
    assert(permuted(row, k, p) =~= permuted(data, k, p).subrange(r * k, r * k + k));
}

// ── what the orders mean ───────────────────────────────────────────────────

/// A ranking goes down: no column stands before a more important one, and of
/// columns as important the left one stands first.
pub proof fn law_ranking_goes_down(keys: Seq<u64>, p: Seq<usize>, i: int, j: int)
    requires
        ranked(keys, p),
        0 <= i < j < p.len(),
    ensures
        keys[p[i] as int] >= keys[p[j] as int],
        keys[p[i] as int] == keys[p[j] as int] ==> p[i] < p[j],
{
    assert(ahead(keys, p[i], p[j]));
}

/// A block-wise order keeps every column in its block of 64 and goes down within
/// each.
pub proof fn law_blocks_keep_their_columns(keys: Seq<u64>, p: Seq<usize>, i: int, j: int)
    requires
        block_ranked(keys, p),
        0 <= i < j < p.len(),
    ensures
        p[i] as int / 64 == i / 64,
        i / 64 == j / 64 ==> keys[p[i] as int] >= keys[p[j] as int],
        i / 64 == j / 64 && keys[p[i] as int] == keys[p[j] as int] ==> p[i] < p[j],
{
    if i / 64 == j / 64 {
        assert(ahead(keys, p[i], p[j]));
    }
}

/// What each strategy makes of importances: the block-wise one goes down within
/// blocks of 64 where the columns are whole blocks, else all the way, and those
/// by norm and by variance go down all the way.
pub proof fn law_strategies_order<F: Fn(u64) -> u64>(
    strategy: PermStrategy,
    p: Seq<usize>,
    rows: int,
    importance: Seq<u64>,
    weaken: F,
    i: int,
    j: int,
)
    requires
        strategy != PermStrategy::Qr,
        ordered_by(strategy, p, rows, importance, weaken),
        0 <= i < j < p.len(),
    ensures
        ({
            let in_blocks = strategy == PermStrategy::Block && importance.len() % 64 == 0;
            let down = {
                &&& importance[p[i] as int] >= importance[p[j] as int]
                &&& importance[p[i] as int] == importance[p[j] as int] ==> p[i] < p[j]
            };
            &&& in_blocks ==> p[i] as int / 64 == i / 64
            &&& in_blocks && i / 64 == j / 64 ==> down
            &&& !in_blocks ==> down
        }),
{
    if strategy == PermStrategy::Block && importance.len() % 64 == 0 {
        law_blocks_keep_their_columns(importance, p, i, j);
    } else {
        law_ranking_goes_down(importance, p, i, j);
    }
}

/// How many columns are chosen by pivoting: all of up to 64, seven eighths of up
/// to 256, three quarters of up to 512, two thirds of up to 1024, half of up to
/// 2048, and a quarter of more, but 512 at most; never more than there are, nor
/// more than there are rows.
pub proof fn law_how_many_pivots(rows: int, k: int)
    requires
        k >= 0,
        rows >= 0,
    ensures
        ({
            let n = qr_steps_spec(k);
            &&& 0 <= n <= k
            &&& k > 0 ==> n > 0
            &&& k <= 64 ==> n == k
            &&& 64 < k <= 256 ==> 8 * n <= 7 * k < 8 * n + 8
            &&& 256 < k <= 512 ==> 4 * n <= 3 * k < 4 * n + 4
            &&& 512 < k <= 1024 ==> 3 * n <= 2 * k < 3 * n + 3
            &&& 1024 < k <= 2048 ==> 2 * n <= k < 2 * n + 2
            &&& 2048 < k <= 2051 ==> 4 * n <= k
            &&& 2048 < k ==> n <= 512 && (n == 512 || 4 * n <= k < 4 * n + 4)
            &&& pivots(rows, k) <= rows
            &&& pivots(rows, k) <= n
            &&& pivots(rows, k) == rows || pivots(rows, k) == n
        }),
{
}

/// One step of pivoting: the column with the largest norm of those not yet
/// chosen, the leftmost of equal ones, changes places with the first of them,
/// and what is left of the others' norms is what `weaken` makes of them, unless
/// the largest is negligible.
pub proof fn law_pivot_is_the_largest<F: Fn(u64) -> u64>(
    a: PivotState,
    b: PivotState,
    s: int,
    weaken: F,
)
    requires
        pivot_step(a, b, s, weaken),
        a.0.len() == a.1.len(),
        0 <= s < a.1.len(),
    ensures
        b.0.len() == a.0.len(),
        b.1.len() == a.1.len(),
        exists|m: int|
            {
                &&& s <= m < a.1.len()
                &&& forall|j: int| s <= j < a.1.len() ==> #[trigger] a.1[j] <= a.1[m]
                &&& forall|j: int| s <= j < m ==> #[trigger] a.1[j] < a.1[m]
                &&& b.0[s] == #[trigger] a.0[m]
                &&& b.0[m] == a.0[s]
                &&& b.1[s] == a.1[m]
                &&& forall|j: int|
                    0 <= j < a.0.len() && j != s && j != m ==> #[trigger] b.0[j] == a.0[j]
                &&& forall|j: int| 0 <= j < s ==> #[trigger] b.1[j] == a.1[j]
                &&& forall|j: int|
                    s < j < a.1.len() ==> {
                        let was = if j == m {
                            a.1[s]
                        } else {
                            a.1[j]
                        };
                        if a.1[m] > 0x3DDB_7CDF_D9D7_BDBB {
                            call_ensures(weaken, (was,), #[trigger] b.1[j])
                        } else {
                            b.1[j] == was
                        }
                    }
            },
{
    let m = choose|m: int|
        {
            &&& #[trigger] leads(a.1, s, m)
            &&& b.0 == swapped(a.0, s, m)
            &&& tail_weakened(swapped(a.1, s, m), b.1, s + 1, a.1[m] > NEGLIGIBLE_NORM, weaken)
        };
    let turned = swapped(a.1, s, m);
    assert(b.1[s] == turned[s]);
    assert forall|j: int| 0 <= j < s implies #[trigger] b.1[j] == a.1[j] by {
        assert(b.1[j] == turned[j]);
    }
    assert(b.0[s] == a.0[m]);
}

/// After `s` steps in which no norm was weakened, the norms are those of the
/// columns, and no column behind a chosen one has a larger norm than it.
spec fn chosen_down(norms: Seq<u64>, a: PivotState, s: int) -> bool {
    &&& a.0.len() == norms.len()
    &&& a.1.len() == norms.len()
    &&& forall|j: int|
        0 <= j < norms.len() ==> #[trigger] a.0[j] < norms.len() && a.1[j] == norms[a.0[j] as int]
    &&& forall|i: int, j: int|
        0 <= i < s && i <= j < norms.len() ==> #[trigger] a.1[j] <= #[trigger] a.1[i]
}

proof fn lemma_step_down<F: Fn(u64) -> u64>(
    norms: Seq<u64>,
    a: PivotState,
    b: PivotState,
    s: int,
    weaken: F,
)
    requires
        forall|n: u64, r: u64| #[trigger] call_ensures(weaken, (n,), r) ==> r == n,
        chosen_down(norms, a, s),
        pivot_step(a, b, s, weaken),
        0 <= s < norms.len(),
    ensures
        chosen_down(norms, b, s + 1),
{
    let m = choose|m: int|
        {
            &&& #[trigger] leads(a.1, s, m)
            &&& b.0 == swapped(a.0, s, m)
            &&& tail_weakened(swapped(a.1, s, m), b.1, s + 1, a.1[m] > NEGLIGIBLE_NORM, weaken)
        };
    let turned = swapped(a.1, s, m);
    assert forall|j: int| 0 <= j < norms.len() implies #[trigger] b.1[j] == turned[j] by {}
    assert(b.1 =~= turned);
    assert forall|j: int| 0 <= j < norms.len() implies #[trigger] b.0[j] < norms.len() && b.1[j]
        == norms[b.0[j] as int] by {
        let was = if j == s {
            m
        } else if j == m {
            s
        } else {
            j
        };
        assert(b.0[j] == a.0[was] && b.1[j] == a.1[was]);
    }
    assert forall|i: int, j: int| 0 <= i < s + 1 && i <= j < norms.len() implies #[trigger] b.1[j]
        <= #[trigger] b.1[i] by {
        let was = if j == s {
            m
        } else if j == m {
            s
        } else {
            j
        };
        assert(b.1[j] == a.1[was]);
        if i < s {
            assert(b.1[i] == a.1[i]);
            assert(a.1[was] <= a.1[i]);
        } else {
            assert(b.1[i] == a.1[m]);
            assert(a.1[was] <= a.1[m]);
        }
    }
}

proof fn lemma_run_down<F: Fn(u64) -> u64>(
    trace: Seq<PivotState>,
    n: int,
    norms: Seq<u64>,
    weaken: F,
    s: int,
)
    requires
        forall|n: u64, r: u64| #[trigger] call_ensures(weaken, (n,), r) ==> r == n,
        pivot_run(trace, n, norms, weaken),
        0 <= s <= n <= norms.len(),
        norms.len() <= usize::MAX,
    ensures
        chosen_down(norms, trace[s], s),
    decreases s,
{
    if s > 0 {
        lemma_run_down(trace, n, norms, weaken, s - 1);
        assert(pivot_step(trace[s - 1], trace[s - 1 + 1], s - 1, weaken));
        lemma_step_down(norms, trace[s - 1], trace[s], s - 1, weaken);
    } else {
        assert(trace[0].0 == Seq::new(norms.len(), |i: int| i as usize));
        assert forall|j: int| 0 <= j < norms.len() implies #[trigger] trace[0].0[j] < norms.len()
            && trace[0].1[j] == norms[trace[0].0[j] as int] by {}
    }
}

/// Pivoting is an order by norm: with enough rows, and where a step leaves the
/// norms as they are, no column stands before one with a larger norm.
pub proof fn law_pivoting_goes_down<F: Fn(u64) -> u64>(
    p: Seq<usize>,
    rows: int,
    norms: Seq<u64>,
    weaken: F,
    i: int,
    j: int,
)
    requires
        norms.len() <= usize::MAX,
        rows >= norms.len(),
        forall|n: u64, r: u64| #[trigger] call_ensures(weaken, (n,), r) ==> r == n,
        ordered_by(PermStrategy::Qr, p, rows, norms, weaken),
        0 <= i < j < p.len(),
    ensures
        p.len() == norms.len(),
        p[i] < norms.len(),
        p[j] < norms.len(),
        norms[p[i] as int] >= norms[p[j] as int],
{
    let k = norms.len() as int;
    let steps = qr_steps_spec(k);
    law_how_many_pivots(rows, k);
    let trace = choose|trace: Seq<PivotState>|
        {
            &&& #[trigger] pivot_run(trace, pivots(rows, k), norms, weaken)
            &&& tail_ranked(p, trace.last(), steps)
        };
    lemma_run_down(trace, steps, norms, weaken, steps);
    assert(trace.last() == trace[steps]);
    lemma_tail_down(p, norms, trace[steps], steps, i, j);
}

proof fn lemma_tail_down(
    p: Seq<usize>,
    norms: Seq<u64>,
    a: PivotState,
    steps: int,
    i: int,
    j: int,
)
    requires
        chosen_down(norms, a, steps),
        tail_ranked(p, a, steps),
        0 <= steps <= norms.len(),
        0 <= i < j < p.len(),
    ensures
        p.len() == norms.len(),
        p[i] < norms.len(),
        p[j] < norms.len(),
        norms[p[i] as int] >= norms[p[j] as int],
{
    let order = choose|order: Seq<usize>|
        {
            &&& lists_range(order, steps, a.1.len() as int)
            &&& #[trigger] ranked(a.1, order)
            &&& forall|i: int|
                0 <= i < order.len() ==> #[trigger] p[steps + i] == a.0[order[i] as int]
        };
    let oi = if i < steps {
        i
    } else {
        order[i - steps] as int
    };
    let oj = if j < steps {
        j
    } else {
        order[j - steps] as int
    };
    assert(p[i] == a.0[oi]) by {
        if i < steps {
            assert(p.take(steps)[i] == a.0.take(steps)[i]);
        } else {
            assert(p[steps + (i - steps)] == a.0[oi]);
        }
    }
    assert(p[j] == a.0[oj]) by {
        if j < steps {
            assert(p.take(steps)[j] == a.0.take(steps)[j]);
        } else {
            assert(p[steps + (j - steps)] == a.0[oj]);
        }
    }
    assert(a.0[oi] < norms.len() && a.1[oi] == norms[a.0[oi] as int]);
    assert(a.0[oj] < norms.len() && a.1[oj] == norms[a.0[oj] as int]);
    if i < steps {
        assert(a.1[oj] <= a.1[oi]);
    } else {
        assert(ahead(a.1, order[i - steps], order[j - steps]));
    }
}

/// Which words name which strategy; without a setting, and for any other word, it
/// is the block-wise one.
pub proof fn law_strategy_words(t: Seq<char>)
    ensures
        PermStrategy::spec_from_setting(None) == PermStrategy::Block,
        PermStrategy::spec_from_setting(Some(t)) == PermStrategy::L2 ==> lower_seq(t) == "l2"@
            || lower_seq(t) == "column"@,
        PermStrategy::spec_from_setting(Some(t)) == PermStrategy::Svd ==> lower_seq(t) == "svd"@
            || lower_seq(t) == "variance"@,
        PermStrategy::spec_from_setting(Some(t)) == PermStrategy::Qr ==> lower_seq(t) == "qr"@
            || lower_seq(t) == "qr-pivot"@,
        PermStrategy::spec_from_setting(Some(t)) == PermStrategy::Block ==> lower_seq(t) != "l2"@
            && lower_seq(t) != "column"@ && lower_seq(t) != "svd"@ && lower_seq(t) != "variance"@
            && lower_seq(t) != "qr"@ && lower_seq(t) != "qr-pivot"@,
{
}

/// A stored permutation is its number, its length and its indices, four bytes
/// each; bytes are refused where they are not these and no others.
pub proof fn law_layout_of_permutations(b: Seq<u8>, i: int)
    ensures
        perm_fault(b) is None <==> b.len() >= 8 && le32(b, 0) == 0x4D52_4550 && b.len() == 8 + 4
            * le32(b, 4),
        perm_fault(b) is None ==> stored_indices(b).len() == le32(b, 4),
        perm_fault(b) is None && 0 <= i < stored_indices(b).len() ==> stored_indices(b)[i] == le32(
            b,
            8 + 4 * i,
        ),
{
}

/// A column order lists every column, and no column stands before one that is
/// more important; a block-wise one holds this for each block of 64 that the
/// columns are made of.
pub proof fn law_orders_list_every_column(
    norms: &[u64],
    all: Vec<usize>,
    in_blocks: Vec<usize>,
    i: int,
    j: int,
)
    requires
        call_ensures(build_column_permutation, (norms,), all),
        call_ensures(build_block_wise_permutation, (norms,), in_blocks),
        0 <= i < j < norms@.len(),
    ensures
        all@.len() == norms@.len(),
        in_blocks@.len() == norms@.len(),
        all@[i] < norms@.len() && all@[i] != all@[j],
        in_blocks@[i] < norms@.len() && in_blocks@[i] != in_blocks@[j],
        norms@[all@[i] as int] >= norms@[all@[j] as int],
        norms@.len() % 64 == 0 ==> in_blocks@[i] as int / 64 == i / 64,
        norms@.len() % 64 == 0 && i / 64 == j / 64 ==> norms@[in_blocks@[i] as int]
            >= norms@[in_blocks@[j] as int],
        norms@.len() % 64 != 0 ==> norms@[in_blocks@[i] as int] >= norms@[in_blocks@[j] as int],
{
    law_ranking_goes_down(norms@, all@, i, j);
    if norms@.len() % 64 == 0 {
        law_blocks_keep_their_columns(norms@, in_blocks@, i, j);
    } else {
        law_ranking_goes_down(norms@, in_blocks@, i, j);
    }
}

/// A fault says why bytes do not store a permutation.
pub proof fn law_faults_of_permutations(b: Seq<u8>)
    ensures
        match perm_fault(b) {
            None => true,
            Some(PermError::TooSmall) => b.len() < 8,
            Some(PermError::BadMagic) => b.len() >= 8 && le32(b, 0) != 0x4D52_4550,
            Some(PermError::Length { got, expected }) => got == b.len() as usize && b.len() != 8 + 4
                * le32(b, 4) && expected == (8 + 4 * le32(b, 4)) as u64,
        },
{
}

} // verus!
