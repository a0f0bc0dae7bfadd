use vstd::prelude::*;
use crate::counts::counts_view;
use crate::tile::{is_terminal_or_honor, NUM_KINDS};

verus! {

/// One complete group of a decomposition: a triplet of `kind`, or a run of three
/// consecutive ranks of one suit starting at `kind`.
#[derive(Debug, Clone, Copy, PartialEq, Eq, Structural)]
pub struct Group {
    pub kind: usize,
    pub is_sequence: bool,
}

pub open spec fn group_valid(g: Group) -> bool {
    g.kind < 34 && (g.is_sequence ==> g.kind < 27 && g.kind % 9 <= 6)
}

/// How many tiles of kind `k` the group holds.
pub open spec fn covers(g: Group, k: int) -> int {
    if g.is_sequence {
        if g.kind <= k <= g.kind + 2 { 1 } else { 0 }
    } else {
        if k == g.kind { 3 } else { 0 }
    }
}

/// How many tiles of kind `k` a list of groups holds together.
pub open spec fn groups_total(gs: Seq<Group>, k: int) -> int
    decreases gs.len(),
{
    if gs.len() == 0 { 0 } else { groups_total(gs.drop_last(), k) + covers(gs.last(), k) }
}

/// `gs` uses exactly the tiles counted by `c`.
pub open spec fn is_decomposition(c: Seq<int>, gs: Seq<Group>) -> bool {
    &&& c.len() == 34
    &&& forall|i: int| 0 <= i < gs.len() ==> group_valid(#[trigger] gs[i])
    &&& forall|k: int| 0 <= k < 34 ==> #[trigger] c[k] == groups_total(gs, k)
}

/// The counts `c` split into exactly `n` groups with no tile left over.
pub open spec fn decomposable(c: Seq<int>, n: nat) -> bool {
    exists|gs: Seq<Group>| gs.len() == n && #[trigger] is_decomposition(c, gs)
}

pub open spec fn counts_ok(c: Seq<int>) -> bool {
    c.len() == 34 && forall|k: int| 0 <= k < 34 ==> #[trigger] c[k] >= 0
}

/// The lowest kind at or after `k` with a positive count (34 when there is none).
pub open spec fn lowest_from(c: Seq<int>, k: int) -> int
    decreases 34 - k,
{
    if k >= 34 || k < 0 { 34 } else if c[k] > 0 { k } else { lowest_from(c, k + 1) }
}

pub open spec fn minus_triplet(c: Seq<int>, k: int) -> Seq<int> {
    c.update(k, c[k] - 3)
}

pub open spec fn minus_sequence(c: Seq<int>, k: int) -> Seq<int> {
    c.update(k, c[k] - 1).update(k + 1, c[k + 1] - 1).update(k + 2, c[k + 2] - 1)
}

pub open spec fn sequence_possible(c: Seq<int>, k: int) -> bool {
    0 <= k < 27 && k % 9 <= 6 && c[k] > 0 && c[k + 1] > 0 && c[k + 2] > 0
}

/// The decomposition found by the fixed search order: take the lowest kind still
/// present, try a triplet of it first, then a run starting at it.
pub open spec fn search_groups(c: Seq<int>, n: nat) -> Option<Seq<Group>>
    decreases n,
{
    let k = lowest_from(c, 0);
    if n == 0 {
        if k == 34 { Some(Seq::empty()) } else { None }
    } else if k == 34 {
        None
    } else {
        let t = if c[k] >= 3 { search_groups(minus_triplet(c, k), (n - 1) as nat) } else { None };
        if t is Some {
            Some(t->0.push(Group { kind: k as usize, is_sequence: false }))
        } else if sequence_possible(c, k) {
            match search_groups(minus_sequence(c, k), (n - 1) as nat) {
                Some(gs) => Some(gs.push(Group { kind: k as usize, is_sequence: true })),
                None => None,
            }
        } else {
            None
        }
    }
}

proof fn lemma_lowest_from(c: Seq<int>, k: int)
    requires
        counts_ok(c),
        0 <= k <= 34,
    ensures
        k <= lowest_from(c, k) <= 34,
        lowest_from(c, k) < 34 ==> c[lowest_from(c, k)] > 0,
        forall|j: int| k <= j < lowest_from(c, k) ==> c[j] == 0,
    decreases 34 - k,
{
    if k < 34 && c[k] <= 0 {
        lemma_lowest_from(c, k + 1);
    }
}

proof fn lemma_covers_nonneg(gs: Seq<Group>, k: int)
    ensures
        groups_total(gs, k) >= 0,
        forall|i: int| 0 <= i < gs.len() ==> groups_total(gs, k) >= covers(#[trigger] gs[i], k),
    decreases gs.len(),
{
    if gs.len() > 0 {
        lemma_covers_nonneg(gs.drop_last(), k);
        assert forall|i: int| 0 <= i < gs.len() implies groups_total(gs, k) >= covers(#[trigger] gs[i], k) by {
            if i < gs.len() - 1 {
                assert(gs[i] == gs.drop_last()[i]);
            }
        }
    }
}

/// A list of groups holds at least what any one of its groups holds.
pub proof fn lemma_covers_ge(gs: Seq<Group>, k: int, i: int)
    requires
        0 <= i < gs.len(),
    ensures
        groups_total(gs, k) >= covers(gs[i], k),
{
    lemma_covers_nonneg(gs, k);
}

proof fn lemma_exists_cover(gs: Seq<Group>, k: int) -> (i: int)
    requires
        groups_total(gs, k) > 0,
    ensures
        0 <= i < gs.len(),
        covers(gs[i], k) > 0,
    decreases gs.len(),
{
    if covers(gs.last(), k) > 0 {
        gs.len() - 1
    } else {
        let i = lemma_exists_cover(gs.drop_last(), k);
        assert(gs[i] == gs.drop_last()[i]);
        i
    }
}

proof fn lemma_remove_group(gs: Seq<Group>, i: int, k: int)
    requires
        0 <= i < gs.len(),
    ensures
        groups_total(gs.remove(i), k) == groups_total(gs, k) - covers(gs[i], k),
    decreases gs.len(),
{
    if i == gs.len() - 1 {
        assert(gs.remove(i) =~= gs.drop_last());
    } else {
        let p = gs.drop_last();
        lemma_remove_group(p, i, k);
        assert(gs.remove(i) =~= p.remove(i).push(gs.last()));
        assert(gs.remove(i).drop_last() =~= p.remove(i));
    }
}

proof fn lemma_push_group(gs: Seq<Group>, g: Group, k: int)
    ensures
        groups_total(gs.push(g), k) == groups_total(gs, k) + covers(g, k),
{
    assert(gs.push(g).drop_last() =~= gs);
}

/// Whatever the search returns is a decomposition into `n` groups.
pub proof fn lemma_search_sound(c: Seq<int>, n: nat)
    requires
        counts_ok(c),
        search_groups(c, n) is Some,
    ensures
        search_groups(c, n)->0.len() == n,
        is_decomposition(c, search_groups(c, n)->0),
    decreases n,
{
    let k = lowest_from(c, 0);
    lemma_lowest_from(c, 0);
    if n == 0 {
        assert forall|j: int| 0 <= j < 34 implies #[trigger] c[j] == groups_total(Seq::<Group>::empty(), j) by {}
    } else {
        let t = if c[k] >= 3 { search_groups(minus_triplet(c, k), (n - 1) as nat) } else { None };
        let (c2, g) = if t is Some {
            (minus_triplet(c, k), Group { kind: k as usize, is_sequence: false })
        } else {
            (minus_sequence(c, k), Group { kind: k as usize, is_sequence: true })
        };
        assert(counts_ok(c2));
        lemma_search_sound(c2, (n - 1) as nat);
        let gs = search_groups(c2, (n - 1) as nat)->0;
        assert(search_groups(c, n)->0 == gs.push(g));
        assert forall|j: int| 0 <= j < 34 implies #[trigger] c[j] == groups_total(gs.push(g), j) by {
            lemma_push_group(gs, g, j);
            assert(c2[j] == groups_total(gs, j));
        }
        assert forall|i: int| 0 <= i < gs.push(g).len() implies group_valid(#[trigger] gs.push(g)[i]) by {
            if i < gs.len() {
                assert(gs.push(g)[i] == gs[i]);
            }
        }
    }
}

/// The search finds a decomposition whenever one exists.
pub proof fn lemma_search_complete(c: Seq<int>, n: nat)
    requires
        counts_ok(c),
        decomposable(c, n),
    ensures
        search_groups(c, n) is Some,
    decreases n,
{
    let gs = choose|gs: Seq<Group>| gs.len() == n && #[trigger] is_decomposition(c, gs);
    let k = lowest_from(c, 0);
    lemma_lowest_from(c, 0);
    if n == 0 {
        if k < 34 {
            assert(c[k] == groups_total(gs, k));
        }
    } else {
        if k == 34 {
            let g = gs[0];
            assert(group_valid(g));
            lemma_covers_nonneg(gs, g.kind as int);
            assert(c[g.kind as int] == groups_total(gs, g.kind as int));
            assert(covers(gs[0], g.kind as int) > 0);
            assert(false);
        }
        assert(c[k] == groups_total(gs, k));
        let i = lemma_exists_cover(gs, k);
        let g = gs[i];
        assert(group_valid(g));
        let rest = gs.remove(i);
        assert forall|j: int| 0 <= j < rest.len() implies group_valid(#[trigger] rest[j]) by {
            if j < i {
                assert(rest[j] == gs[j]);
            } else {
                assert(rest[j] == gs[j + 1]);
            }
        }
        if !g.is_sequence {
            let c2 = minus_triplet(c, k);
            assert(g.kind == k);
            lemma_covers_nonneg(gs, k);
            assert forall|j: int| 0 <= j < 34 implies #[trigger] c2[j] == groups_total(rest, j) by {
                lemma_remove_group(gs, i, j);
                assert(c[j] == groups_total(gs, j));
            }
            assert(is_decomposition(c2, rest));
            lemma_search_complete(c2, (n - 1) as nat);
        } else {
            let s = g.kind as int;
            assert(c[s] == groups_total(gs, s));
            lemma_covers_nonneg(gs, s);
            assert(s == k);
            assert(c[k + 1] == groups_total(gs, k + 1));
            assert(c[k + 2] == groups_total(gs, k + 2));
            lemma_covers_nonneg(gs, k + 1);
            lemma_covers_nonneg(gs, k + 2);
            let c2 = minus_sequence(c, k);
            assert forall|j: int| 0 <= j < 34 implies #[trigger] c2[j] == groups_total(rest, j) by {
                lemma_remove_group(gs, i, j);
                assert(c[j] == groups_total(gs, j));
            }
            assert(is_decomposition(c2, rest));
            lemma_search_complete(c2, (n - 1) as nat);
            if c[k] >= 3 {
                let c3 = minus_triplet(c, k);
                if search_groups(c3, (n - 1) as nat) is None {
                    assert(sequence_possible(c, k));
                }
            }
        }
    }
}

/// The search succeeds exactly when the counts decompose into `n` groups.
pub proof fn lemma_search_iff(c: Seq<int>, n: nat)
    requires
        counts_ok(c),
    ensures
        search_groups(c, n) is Some <==> decomposable(c, n),
{
    if search_groups(c, n) is Some {
        lemma_search_sound(c, n);
        let gs = search_groups(c, n)->0;
        assert(gs.len() == n && is_decomposition(c, gs));
    }
    if decomposable(c, n) {
        lemma_search_complete(c, n);
    }
}

fn lowest_present(c: &Vec<usize>) -> (k: usize)
    requires
        c@.len() == 34,
    ensures
        k as int == lowest_from(counts_view(c@), 0),
        k <= 34,
        k < 34 ==> c@[k as int] > 0,
{
    let ghost cv = counts_view(c@);
    let mut k: usize = 0;
    while k < NUM_KINDS && c[k] == 0
        invariant
            k <= 34,
            c@.len() == 34,
            cv == counts_view(c@),
            lowest_from(cv, 0) == lowest_from(cv, k as int),
        decreases 34 - k,
    {
        k += 1;
    }
    k
}

/// Splits the counts into `n` groups by the fixed search order (see `search_groups`).
/// Each branch works on its own copy of the counts.
pub fn find_groups(c: &Vec<usize>, n: usize) -> (r: Option<Vec<Group>>)
    requires
        c@.len() == 34,
    ensures
        r is Some <==> search_groups(counts_view(c@), n as nat) is Some,
        r is Some ==> r->0@ == search_groups(counts_view(c@), n as nat)->0,
    decreases n,
{
    let ghost cv = counts_view(c@);
    let k = lowest_present(c);
    if n == 0 {
        if k == NUM_KINDS {
            return Some(Vec::new());
        } else {
            return None;
        }
    }
    if k == NUM_KINDS {
        return None;
    }
    if c[k] >= 3 {
        let mut c2 = c.clone();
        c2.set(k, c[k] - 3);
        assert(counts_view(c2@) =~= minus_triplet(cv, k as int));
        if let Some(mut gs) = find_groups(&c2, n - 1) {
            gs.push(Group { kind: k, is_sequence: false });
            return Some(gs);
        }
    }
    if k < 27 && k % 9 <= 6 && c[k + 1] > 0 && c[k + 2] > 0 {
        let mut c2 = c.clone();
        c2.set(k, c[k] - 1);
        c2.set(k + 1, c[k + 1] - 1);
        c2.set(k + 2, c[k + 2] - 1);
        assert(counts_view(c2@) =~= minus_sequence(cv, k as int));
        if let Some(mut gs) = find_groups(&c2, n - 1) {
            gs.push(Group { kind: k, is_sequence: true });
            return Some(gs);
        }
        return None;
    }
    None
}

/// The counts with a pair of kind `p` set aside.
pub open spec fn minus_pair(c: Seq<int>, p: int) -> Seq<int> {
    c.update(p, c[p] - 2)
}

/// The standard form: a pair plus `n` groups, using every tile.
pub open spec fn is_standard_form(c: Seq<int>, n: nat) -> bool {
    exists|p: int| 0 <= p < 34 && c[p] >= 2 && #[trigger] decomposable(minus_pair(c, p), n)
}

/// The first pair kind at or after `p` (in kind order) that leaves a decomposable rest,
/// with the groups the search finds for it.
pub open spec fn pair_search(c: Seq<int>, n: nat, p: int) -> Option<(int, Seq<Group>)>
    decreases 34 - p,
{
    if p >= 34 || p < 0 {
        None
    } else if c[p] >= 2 && search_groups(minus_pair(c, p), n) is Some {
        Some((p, search_groups(minus_pair(c, p), n)->0))
    } else {
        pair_search(c, n, p + 1)
    }
}

/// The canonical standard-form decomposition: its pair kind and its groups.
pub open spec fn standard_decomposition(c: Seq<int>, n: nat) -> Option<(int, Seq<Group>)> {
    pair_search(c, n, 0)
}

proof fn lemma_pair_search(c: Seq<int>, n: nat, p: int)
    requires
        counts_ok(c),
        0 <= p <= 34,
    ensures
        pair_search(c, n, p) is Some <==> exists|q: int| p <= q < 34 && c[q] >= 2 && #[trigger] decomposable(minus_pair(c, q), n),
        pair_search(c, n, p) is Some ==> ({
            let (q, gs) = pair_search(c, n, p)->0;
            &&& p <= q < 34
            &&& c[q] >= 2
            &&& gs.len() == n
            &&& is_decomposition(minus_pair(c, q), gs)
        }),
    decreases 34 - p,
{
    if p < 34 {
        lemma_pair_search(c, n, p + 1);
        if c[p] >= 2 {
            assert(counts_ok(minus_pair(c, p)));
            lemma_search_iff(minus_pair(c, p), n);
            if search_groups(minus_pair(c, p), n) is Some {
                lemma_search_sound(minus_pair(c, p), n);
            }
        }
        if exists|q: int| p <= q < 34 && c[q] >= 2 && #[trigger] decomposable(minus_pair(c, q), n) {
            let q = choose|q: int| p <= q < 34 && c[q] >= 2 && #[trigger] decomposable(minus_pair(c, q), n);
            if q == p {
                assert(counts_ok(minus_pair(c, p)));
                lemma_search_iff(minus_pair(c, p), n);
            }
        }
    }
}

/// The canonical decomposition exists exactly for standard-form counts, and is one.
pub proof fn lemma_standard_decomposition(c: Seq<int>, n: nat)
    requires
        counts_ok(c),
    ensures
        standard_decomposition(c, n) is Some <==> is_standard_form(c, n),
        standard_decomposition(c, n) is Some ==> ({
            let (p, gs) = standard_decomposition(c, n)->0;
            &&& 0 <= p < 34
            &&& c[p] >= 2
            &&& gs.len() == n
            &&& is_decomposition(minus_pair(c, p), gs)
        }),
{
    lemma_pair_search(c, n, 0);
}

/// Finds the canonical standard-form decomposition (see `standard_decomposition`).
pub fn decompose_standard(c: &Vec<usize>, n: usize) -> (r: Option<(usize, Vec<Group>)>)
    requires
        c@.len() == 34,
    ensures
        r is Some <==> standard_decomposition(counts_view(c@), n as nat) is Some,
        r is Some ==> ({
            let (p, gs) = r->0;
            let (q, hs) = standard_decomposition(counts_view(c@), n as nat)->0;
            p as int == q && gs@ == hs
        }),
{
    let ghost cv = counts_view(c@);
    let mut p: usize = 0;
    while p < NUM_KINDS
        invariant
            p <= 34,
            c@.len() == 34,
            cv == counts_view(c@),
            pair_search(cv, n as nat, 0) == pair_search(cv, n as nat, p as int),
        decreases 34 - p,
    {
        if c[p] >= 2 {
            let mut c2 = c.clone();
            c2.set(p, c[p] - 2);
            assert(counts_view(c2@) =~= minus_pair(cv, p as int));
            if let Some(gs) = find_groups(&c2, n) {
                return Some((p, gs));
            }
        }
        p += 1;
    }
    None
}

/// Seven pairs: every kind present is present exactly twice.
pub open spec fn is_seven_pairs(c: Seq<int>) -> bool {
    forall|k: int| 0 <= k < 34 ==> #[trigger] c[k] == 0 || c[k] == 2
}

/// Thirteen orphans with kind `d` as the duplicated one.
pub open spec fn orphans_with_pair(c: Seq<int>, d: int) -> bool {
    &&& is_terminal_or_honor(d)
    &&& forall|k: int| 0 <= k < 34 ==> #[trigger] c[k] == if k == d { 2int } else if is_terminal_or_honor(k) { 1int } else { 0int }
}

/// Thirteen orphans: one of each terminal and honor kind, one of them twice, nothing else.
pub open spec fn is_thirteen_orphans(c: Seq<int>) -> bool {
    exists|d: int| #[trigger] orphans_with_pair(c, d)
}

fn is_terminal_or_honor_kind(k: usize) -> (r: bool)
    ensures
        r == is_terminal_or_honor(k as int),
{
    k < NUM_KINDS && (k >= 27 || k % 9 == 0 || k % 9 == 8)
}

/// Seven-pairs check on a count vector.
pub fn check_chitoi(c: &Vec<usize>) -> (r: bool)
    requires
        c@.len() == 34,
    ensures
        r == is_seven_pairs(counts_view(c@)),
{
    let mut k: usize = 0;
    while k < NUM_KINDS
        invariant
            k <= 34,
            c@.len() == 34,
            forall|j: int| 0 <= j < k ==> c@[j] == 0 || c@[j] == 2,
        decreases 34 - k,
    {
        if c[k] != 0 && c[k] != 2 {
            assert(!(counts_view(c@)[k as int] == 0 || counts_view(c@)[k as int] == 2));
            return false;
        }
        k += 1;
    }
    true
}

/// Thirteen-orphans check on a count vector.
pub fn check_kokushi(c: &Vec<usize>) -> (r: bool)
    requires
        c@.len() == 34,
    ensures
        r == is_thirteen_orphans(counts_view(c@)),
{
    let ghost cv = counts_view(c@);
    let mut has_pair = false;
    let mut d: usize = 0;
    let mut k: usize = 0;
    while k < NUM_KINDS
        invariant
            k <= 34,
            c@.len() == 34,
            cv == counts_view(c@),
            has_pair ==> d < k && is_terminal_or_honor(d as int) && c@[d as int] == 2,
            forall|j: int| 0 <= j < k && !(has_pair && j == d) ==> c@[j] == if is_terminal_or_honor(j) { 1int } else { 0int },
        decreases 34 - k,
    {
        let v = c[k];
        if is_terminal_or_honor_kind(k) {
            if v == 0 {
                assert forall|e: int| !orphans_with_pair(cv, e) by {
                    if orphans_with_pair(cv, e) { assert(cv[k as int] >= 1); }
                }
                return false;
            } else if v == 2 {
                if has_pair {
                    assert forall|e: int| !orphans_with_pair(cv, e) by {
                        if orphans_with_pair(cv, e) {
                            assert(cv[k as int] == 2);
                            assert(cv[d as int] == 2);
                        }
                    }
                    return false;
                }
                has_pair = true;
                d = k;
            } else if v != 1 {
                assert forall|e: int| !orphans_with_pair(cv, e) by {
                    if orphans_with_pair(cv, e) { assert(cv[k as int] == v); }
                }
                return false;
            }
        } else if v != 0 {
            assert forall|e: int| !orphans_with_pair(cv, e) by {
                if orphans_with_pair(cv, e) { assert(cv[k as int] == v); }
            }
            return false;
        }
        k += 1;
    }
    if has_pair {
        assert(orphans_with_pair(cv, d as int));
        true
    } else {
        assert forall|e: int| !orphans_with_pair(cv, e) by {
            if orphans_with_pair(cv, e) {
                assert(cv[e] == 2);
            }
        }
        false
    }
}

} // verus!
