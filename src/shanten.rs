use vstd::prelude::*;
use crate::counts::{counts_view, total, sum_prefix};
use crate::completion::minus_pair;
use crate::hand::min3;
use crate::tile::{is_terminal_or_honor, NUM_KINDS};

verus! {

/// Complete triplets counted kind by kind over the first `n` kinds.
pub open spec fn triplet_sets(c: Seq<int>, n: int) -> int
    decreases n,
{
    if n <= 0 { 0 } else { triplet_sets(c, n - 1) + c[n - 1] / 3 }
}

/// What the triplets leave of each kind: `c % 3`.
pub open spec fn remainders(c: Seq<int>) -> Seq<int> {
    Seq::new(34, |k: int| c[k] % 3)
}

/// Runs taken greedily from kind `k` upward out of the remainders `r`: at each start kind
/// as many runs as all three of its kinds allow, their tiles taken out before moving on.
pub open spec fn run_sets_from(r: Seq<int>, k: int) -> int
    decreases 34 - k,
{
    if k < 0 || k >= 34 {
        0
    } else if k < 27 && k % 9 <= 6 && r[k] > 0 {
        let m = min3(r[k], r[k + 1], r[k + 2]);
        m + run_sets_from(r.update(k, r[k] - m).update(k + 1, r[k + 1] - m).update(k + 2, r[k + 2] - m), k + 1)
    } else {
        run_sets_from(r, k + 1)
    }
}

/// The greedy group count: triplets first, then runs taken out of the remainders. Every
/// tile is used by at most one counted group; this is an estimate, not an optimal partition.
pub open spec fn count_groups(c: Seq<int>) -> int {
    triplet_sets(c, 34) + run_sets_from(remainders(c), 0)
}

/// Runs never count negatively.
pub proof fn lemma_run_sets_nonneg(r: Seq<int>, k: int)
    requires
        r.len() == 34,
        forall|j: int| 0 <= j < 34 ==> #[trigger] r[j] >= 0,
    ensures
        run_sets_from(r, k) >= 0,
    decreases 34 - k,
{
    if 0 <= k < 34 {
        if k < 27 && k % 9 <= 6 && r[k] > 0 {
            let m = min3(r[k], r[k + 1], r[k + 2]);
            let r2 = r.update(k, r[k] - m).update(k + 1, r[k + 1] - m).update(k + 2, r[k + 2] - m);
            assert forall|j: int| 0 <= j < 34 implies #[trigger] r2[j] >= 0 by {}
            lemma_run_sets_nonneg(r2, k + 1);
        } else {
            lemma_run_sets_nonneg(r, k + 1);
        }
    }
}

pub open spec fn max0(x: int) -> int {
    if x < 0 { 0 } else { x }
}

/// Standard-form estimate with kind `p` as the pair.
pub open spec fn pair_candidate(c: Seq<int>, needed: int, p: int) -> int {
    max0(needed - count_groups(minus_pair(c, p)) - 1)
}

/// The least pair-candidate estimate over kinds `p..34` that hold a pair; 8 when none does.
pub open spec fn normal_from(c: Seq<int>, needed: int, p: int) -> int
    decreases 34 - p,
{
    if p >= 34 || p < 0 {
        8
    } else {
        let rest = normal_from(c, needed, p + 1);
        if c[p] >= 2 && pair_candidate(c, needed, p) < rest { pair_candidate(c, needed, p) } else { rest }
    }
}

/// Standard-form estimate.
pub open spec fn shanten_normal(c: Seq<int>, needed: int) -> int {
    normal_from(c, needed, 0)
}

/// Kinds among the first `n` whose count is at least `m`.
pub open spec fn kinds_with_at_least(c: Seq<int>, n: int, m: int) -> int
    decreases n,
{
    if n <= 0 { 0 } else { kinds_with_at_least(c, n - 1, m) + if c[n - 1] >= m { 1int } else { 0int } }
}

/// Terminal and honor kinds among the first `n` whose count is at least `m`.
pub open spec fn orphans_with_at_least(c: Seq<int>, n: int, m: int) -> int
    decreases n,
{
    if n <= 0 {
        0
    } else {
        orphans_with_at_least(c, n - 1, m)
            + if is_terminal_or_honor(n - 1) && c[n - 1] >= m { 1int } else { 0int }
    }
}

/// Seven-pairs estimate: only for exactly 13 loose tiles.
pub open spec fn shanten_chitoi(c: Seq<int>, len: int) -> int {
    if len != 13 { 8 } else { 6 - kinds_with_at_least(c, 34, 2) }
}

/// Thirteen-orphans estimate: 13, less one per terminal or honor kind present, less one
/// more when one of them is held twice; never below zero.
pub open spec fn shanten_kokushi(c: Seq<int>) -> int {
    max0(13 - orphans_with_at_least(c, 34, 1) - if orphans_with_at_least(c, 34, 2) > 0 { 1int } else { 0int })
}

pub open spec fn min_int(a: int, b: int) -> int {
    if a <= b { a } else { b }
}

/// The shanten of a hand with kind counts `c`, `len` loose tiles and `melds` melds: the
/// least of the three estimates, or the standard one alone once a meld is declared.
pub open spec fn hand_shanten(c: Seq<int>, len: int, melds: int) -> int {
    let normal = shanten_normal(c, 4 - melds);
    if melds == 0 {
        min_int(min_int(normal, shanten_chitoi(c, len)), shanten_kokushi(c))
    } else {
        normal
    }
}

proof fn lemma_kinds_bound(c: Seq<int>, n: int)
    requires
        0 <= n <= c.len(),
        forall|k: int| 0 <= k < c.len() ==> #[trigger] c[k] >= 0,
    ensures
        2 * kinds_with_at_least(c, n, 2) <= sum_prefix(c, n),
        0 <= kinds_with_at_least(c, n, 2),
    decreases n,
{
    if n > 0 {
        lemma_kinds_bound(c, n - 1);
    }
}

proof fn lemma_normal_range(c: Seq<int>, needed: int, p: int)
    ensures
        0 <= normal_from(c, needed, p) <= 8,
    decreases 34 - p,
{
    if 0 <= p < 34 {
        lemma_normal_range(c, needed, p + 1);
    }
}

/// The shanten value is never negative.
pub proof fn lemma_shanten_nonneg(c: Seq<int>, len: int, melds: int)
    requires
        c.len() == 34,
        forall|k: int| 0 <= k < 34 ==> #[trigger] c[k] >= 0,
        total(c) == len,
    ensures
        hand_shanten(c, len, melds) >= 0,
{
    lemma_normal_range(c, 4 - melds, 0);
    lemma_kinds_bound(c, 34);
}

/// Each of the three estimates is non-negative.
pub proof fn lemma_parts_nonneg(c: Seq<int>, len: int, needed: int)
    requires
        c.len() == 34,
        forall|k: int| 0 <= k < 34 ==> #[trigger] c[k] >= 0,
        total(c) == len,
    ensures
        shanten_normal(c, needed) >= 0,
        shanten_chitoi(c, len) >= 0,
        shanten_kokushi(c) >= 0,
{
    lemma_normal_range(c, needed, 0);
    lemma_kinds_bound(c, 34);
}

fn count_groups_exec(c: &Vec<usize>) -> (r: usize)
    requires
        c@.len() == 34,
        forall|k: int| 0 <= k < 34 ==> #[trigger] c@[k] <= 136,
    ensures
        r as int == count_groups(counts_view(c@)),
        r <= 34 * 48,
{
    let ghost cv = counts_view(c@);
    let mut sets: usize = 0;
    let mut k: usize = 0;
    while k < NUM_KINDS
        invariant
            k <= 34,
            c@.len() == 34,
            cv == counts_view(c@),
            forall|j: int| 0 <= j < 34 ==> #[trigger] c@[j] <= 136,
            sets as int == triplet_sets(cv, k as int),
            sets <= k * 46,
        decreases 34 - k,
    {
        sets += c[k] / 3;
        k += 1;
    }
    let mut rem: Vec<usize> = Vec::new();
    k = 0;
    while k < NUM_KINDS
        invariant
            k <= 34,
            c@.len() == 34,
            cv == counts_view(c@),
            rem@.len() == k,
            forall|j: int| 0 <= j < k ==> #[trigger] rem@[j] as int == cv[j] % 3,
        decreases 34 - k,
    {
        rem.push(c[k] % 3);
        k += 1;
    }
    let ghost r0 = counts_view(rem@);
    assert(r0 =~= remainders(cv));
    let mut runs: usize = 0;
    k = 0;
    while k < NUM_KINDS
        invariant
            k <= 34,
            rem@.len() == 34,
            forall|j: int| 0 <= j < 34 ==> #[trigger] rem@[j] <= 2,
            runs as int + run_sets_from(counts_view(rem@), k as int) == run_sets_from(r0, 0),
            runs <= k * 2,
        decreases 34 - k,
    {
        let ghost rv = counts_view(rem@);
        if k < 27 && k % 9 <= 6 && rem[k] > 0 {
            let a = rem[k];
            let b = rem[k + 1];
            let d = rem[k + 2];
            let m = if a <= b && a <= d { a } else if b <= d { b } else { d };
            rem.set(k, a - m);
            rem.set(k + 1, b - m);
            rem.set(k + 2, d - m);
            assert(counts_view(rem@) =~= rv.update(k as int, rv[k as int] - m).update(k + 1, rv[k + 1] - m)
                .update(k + 2, rv[k + 2] - m));
            runs += m;
        }
        k += 1;
    }
    sets + runs
}

/// Standard-form estimate on a count vector.
pub fn shanten_normal_exec(c: &Vec<usize>, needed: usize) -> (r: i32)
    requires
        c@.len() == 34,
        needed <= 4,
        forall|k: int| 0 <= k < 34 ==> #[trigger] c@[k] <= 136,
    ensures
        r as int == shanten_normal(counts_view(c@), needed as int),
{
    let ghost cv = counts_view(c@);
    let mut best: i32 = 8;
    let mut p: usize = NUM_KINDS;
    while p > 0
        invariant
            p <= 34,
            c@.len() == 34,
            cv == counts_view(c@),
            needed <= 4,
            forall|k: int| 0 <= k < 34 ==> #[trigger] c@[k] <= 136,
            best as int == normal_from(cv, needed as int, p as int),
        decreases p,
    {
        p -= 1;
        if c[p] >= 2 {
            let mut c2 = c.clone();
            c2.set(p, c[p] - 2);
            assert(counts_view(c2@) =~= minus_pair(cv, p as int));
            let made = count_groups_exec(&c2);
            let v: i64 = needed as i64 - made as i64 - 1;
            let cand: i32 = if v < 0 { 0 } else { v as i32 };
            if cand < best {
                best = cand;
            }
        }
    }
    best
}

/// Seven-pairs estimate on a count vector.
pub fn shanten_chitoi_exec(c: &Vec<usize>, len: usize) -> (r: i32)
    requires
        c@.len() == 34,
    ensures
        r as int == shanten_chitoi(counts_view(c@), len as int),
{
    if len != 13 {
        return 8;
    }
    let ghost cv = counts_view(c@);
    let mut pairs: i32 = 0;
    let mut k: usize = 0;
    while k < NUM_KINDS
        invariant
            k <= 34,
            c@.len() == 34,
            cv == counts_view(c@),
            pairs as int == kinds_with_at_least(cv, k as int, 2),
            0 <= pairs <= k,
        decreases 34 - k,
    {
        if c[k] >= 2 {
            pairs += 1;
        }
        k += 1;
    }
    6 - pairs
}

/// Thirteen-orphans estimate on a count vector.
pub fn shanten_kokushi_exec(c: &Vec<usize>) -> (r: i32)
    requires
        c@.len() == 34,
    ensures
        r as int == shanten_kokushi(counts_view(c@)),
{
    let ghost cv = counts_view(c@);
    let mut kinds: i32 = 0;
    let mut doubled: i32 = 0;
    let mut k: usize = 0;
    while k < NUM_KINDS
        invariant
            k <= 34,
            c@.len() == 34,
            cv == counts_view(c@),
            kinds as int == orphans_with_at_least(cv, k as int, 1),
            doubled as int == orphans_with_at_least(cv, k as int, 2),
            0 <= kinds <= k,
            0 <= doubled <= k,
        decreases 34 - k,
    {
        let yaochu = k < NUM_KINDS && (k >= 27 || k % 9 == 0 || k % 9 == 8);
        if yaochu && c[k] >= 1 {
            kinds += 1;
        }
        if yaochu && c[k] >= 2 {
            doubled += 1;
        }
        k += 1;
    }
    let v = 13 - kinds - if doubled > 0 { 1 } else { 0 };
    if v < 0 { 0 } else { v }
}

/// Shanten from kind counts, loose-tile count and meld count (see `hand_shanten`).
pub fn shanten_of_counts(c: &Vec<usize>, len: usize, melds: usize) -> (r: i32)
    requires
        c@.len() == 34,
        melds <= 4,
        total(counts_view(c@)) == len,
        forall|k: int| 0 <= k < 34 ==> #[trigger] c@[k] <= 136,
    ensures
        r as int == hand_shanten(counts_view(c@), len as int, melds as int),
        r >= 0,
{
    proof {
        let cv = counts_view(c@);
        assert forall|k: int| 0 <= k < 34 implies #[trigger] cv[k] >= 0 by {}
        lemma_shanten_nonneg(cv, len as int, melds as int);
    }
    let normal = shanten_normal_exec(c, 4 - melds);
    if melds == 0 {
        let chitoi = shanten_chitoi_exec(c, len);
        let kokushi = shanten_kokushi_exec(c);
        let m = if normal <= chitoi { normal } else { chitoi };
        if m <= kokushi { m } else { kokushi }
    } else {
        normal
    }
}

} // verus!
