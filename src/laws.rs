use vstd::prelude::*;
use crate::tile::{Tile, tile_valid, kind_of, is_terminal_or_honor};
use crate::counts::{all_valid, kind_counts, count_kind, sum_prefix, lemma_total_counts, lemma_count_kind_push};
use crate::completion::{
    Group, groups_total, covers, group_valid, is_decomposition, decomposable, minus_pair, is_standard_form, is_seven_pairs,
    is_thirteen_orphans, orphans_with_pair,
};
use crate::hand::{Meld, hand_size, groups_needed, is_complete_spec};
use crate::shanten::{
    hand_shanten, shanten_chitoi, shanten_kokushi, kinds_with_at_least, orphans_with_at_least,
    lemma_shanten_nonneg, triplet_sets, count_groups, pair_candidate, normal_from,
};
use crate::scoring::{Conditions, Yaku, score_of, limit_han, limit_yaku, ordinary_han,
    ordinary_yaku_first, ordinary_yaku_second, ordinary_han_first, ordinary_han_second};

verus! {

broadcast use vstd::seq_lib::group_to_multiset_ensures;

/// Any fourteen tiles that split into a pair and the groups still needed are a winning hand.
pub proof fn lemma_standard_hand_is_complete(loose: Seq<Tile>, melds: Seq<Meld>, pair: int, groups: Seq<Group>)
    requires
        all_valid(loose),
        hand_size(loose, melds) == 14,
        0 <= pair < 34,
        kind_counts(loose)[pair] >= 2,
        groups.len() == groups_needed(melds),
        is_decomposition(minus_pair(kind_counts(loose), pair), groups),
    ensures
        is_complete_spec(loose, melds),
{
    let c = kind_counts(loose);
    assert(decomposable(minus_pair(c, pair), groups_needed(melds)));
    assert(is_standard_form(c, groups_needed(melds)));
}

/// The shanten value of any hand is never negative.
pub proof fn lemma_shanten_never_negative(loose: Seq<Tile>, melds: int)
    requires
        all_valid(loose),
    ensures
        hand_shanten(kind_counts(loose), loose.len() as int, melds) >= 0,
{
    lemma_total_counts(loose);
    let c = kind_counts(loose);
    assert forall|k: int| 0 <= k < 34 implies #[trigger] c[k] >= 0 by {}
    lemma_shanten_nonneg(c, loose.len() as int, melds);
}

proof fn lemma_kinds_of_pairs(c: Seq<int>, n: int)
    requires
        0 <= n <= c.len(),
        forall|k: int| 0 <= k < c.len() ==> #[trigger] c[k] == 0 || c[k] == 2,
    ensures
        2 * kinds_with_at_least(c, n, 2) == sum_prefix(c, n),
    decreases n,
{
    if n > 0 {
        lemma_kinds_of_pairs(c, n - 1);
    }
}

proof fn lemma_kinds_after_one_less(a: Seq<int>, b: Seq<int>, kt: int, m: int, n: int)
    requires
        0 <= n <= 34,
        a.len() == 34,
        b.len() == 34,
        0 <= kt < 34,
        forall|k: int| 0 <= k < 34 && k != kt ==> a[k] == b[k],
        a[kt] >= m,
        b[kt] < m,
    ensures
        kinds_with_at_least(b, n, m) == kinds_with_at_least(a, n, m) - if kt < n { 1int } else { 0int },
    decreases n,
{
    if n > 0 {
        lemma_kinds_after_one_less(a, b, kt, m, n - 1);
    }
}

/// Terminal and honor kinds below `n`.
pub open spec fn orphan_kinds_below(n: int) -> int
    decreases n,
{
    if n <= 0 { 0 } else { orphan_kinds_below(n - 1) + if is_terminal_or_honor(n - 1) { 1int } else { 0int } }
}

proof fn lemma_orphans_all_but(c: Seq<int>, n: int, m: int, e: int)
    requires
        0 <= n <= 34,
        forall|k: int| 0 <= k < n ==> ((is_terminal_or_honor(k) && #[trigger] c[k] >= m) <==> (is_terminal_or_honor(k) && k != e)),
    ensures
        orphans_with_at_least(c, n, m) == orphan_kinds_below(n) - if 0 <= e < n && is_terminal_or_honor(e) { 1int } else { 0int },
    decreases n,
{
    if n > 0 {
        lemma_orphans_all_but(c, n - 1, m, e);
    }
}

proof fn lemma_orphans_only(c: Seq<int>, n: int, m: int, e: int)
    requires
        0 <= n <= 34,
        forall|k: int| 0 <= k < 34 && is_terminal_or_honor(k) && #[trigger] c[k] >= m ==> k == e,
        0 <= e < 34 ==> is_terminal_or_honor(e) && c[e] >= m,
    ensures
        orphans_with_at_least(c, n, m) == if 0 <= e < n { 1int } else { 0int },
    decreases n,
{
    if n > 0 {
        lemma_orphans_only(c, n - 1, m, e);
    }
}

proof fn lemma_kind_range(t: Tile)
    requires
        tile_valid(t),
    ensures
        0 <= kind_of(t) < 34,
{
    match t.tile_type {
        crate::tile::TileType::Number { suit, value } => {},
        crate::tile::TileType::Honor(h) => {},
    }
}

proof fn lemma_counts_push(loose: Seq<Tile>, t: Tile)
    requires
        tile_valid(t),
    ensures
        forall|k: int| 0 <= k < 34 && k != kind_of(t) ==> kind_counts(loose.push(t))[k] == kind_counts(loose)[k],
        kind_counts(loose.push(t))[kind_of(t)] == kind_counts(loose)[kind_of(t)] + 1,
{
    lemma_kind_range(t);
    assert forall|k: int| 0 <= k < 34 implies count_kind(loose.push(t), k) == count_kind(loose, k) + if kind_of(t) == k { 1nat } else { 0nat } by {
        lemma_count_kind_push(loose, t, k);
    }
}

/// A concealed thirteen-tile hand that one more tile turns into seven pairs is one tile away:
/// its seven-pairs estimate is 0.
pub proof fn lemma_seven_pairs_one_away(loose: Seq<Tile>, t: Tile)
    requires
        all_valid(loose),
        tile_valid(t),
        loose.len() == 13,
        is_seven_pairs(kind_counts(loose.push(t))),
    ensures
        shanten_chitoi(kind_counts(loose), 13) == 0,
{
    let full = loose.push(t);
    assert(all_valid(full)) by {
        assert forall|i: int| 0 <= i < full.len() implies tile_valid(#[trigger] full[i]) by {
            if i < loose.len() { assert(full[i] == loose[i]); }
        }
    }
    let a = kind_counts(full);
    let b = kind_counts(loose);
    lemma_total_counts(full);
    lemma_counts_push(loose, t);
    let kt = kind_of(t);
    lemma_kinds_of_pairs(a, 34);
    assert(a[kt] == 2);
    lemma_kinds_after_one_less(a, b, kt, 2, 34);
}

/// A concealed thirteen-tile hand that one more tile turns into thirteen orphans is one
/// tile away: its thirteen-orphans estimate is 0.
pub proof fn lemma_thirteen_orphans_one_away(loose: Seq<Tile>, t: Tile)
    requires
        all_valid(loose),
        tile_valid(t),
        is_thirteen_orphans(kind_counts(loose.push(t))),
    ensures
        shanten_kokushi(kind_counts(loose)) == 0,
{
    let a = kind_counts(loose.push(t));
    let b = kind_counts(loose);
    lemma_counts_push(loose, t);
    let kt = kind_of(t);
    let d = choose|d: int| #[trigger] orphans_with_pair(a, d);
    assert(orphan_kinds_below(34) == 13) by {
        reveal_with_fuel(orphan_kinds_below, 35);
    }
    assert(a[kt] >= 1);
    assert(is_terminal_or_honor(kt));
    if kt == d {
        lemma_orphans_all_but(b, 34, 1, -1);
        lemma_orphans_only(b, 34, 2, -1);
    } else {
        lemma_orphans_all_but(b, 34, 1, kt);
        lemma_orphans_only(b, 34, 2, d);
    }
}

/// A concealed thirteen-tile hand that one more tile turns into seven pairs or thirteen
/// orphans has shanten 0.
pub proof fn lemma_one_away_has_shanten_zero(loose: Seq<Tile>, t: Tile)
    requires
        all_valid(loose),
        tile_valid(t),
        loose.len() == 13,
        is_seven_pairs(kind_counts(loose.push(t))) || is_thirteen_orphans(kind_counts(loose.push(t))),
    ensures
        hand_shanten(kind_counts(loose), 13, 0) == 0,
{
    lemma_shanten_never_negative(loose, 0);
    let c = kind_counts(loose);
    lemma_total_counts(loose);
    crate::shanten::lemma_parts_nonneg(c, 13, 4);
    if is_seven_pairs(kind_counts(loose.push(t))) {
        lemma_seven_pairs_one_away(loose, t);
    } else {
        lemma_thirteen_orphans_one_away(loose, t);
    }
}

/// Triplets held by `gs`, counted kind by kind over kinds below `n`.
spec fn triplets_below(gs: Seq<Group>, n: int) -> int
    decreases n,
{
    if n <= 0 { 0 } else { triplets_below(gs, n - 1) + groups_total(gs, n - 1) / 3 }
}

proof fn lemma_groups_total_nonneg(gs: Seq<Group>, k: int)
    ensures
        groups_total(gs, k) >= 0,
    decreases gs.len(),
{
    if gs.len() > 0 {
        lemma_groups_total_nonneg(gs.drop_last(), k);
    }
}

proof fn lemma_triplets_below_push(gs: Seq<Group>, g: Group, n: int)
    requires
        !g.is_sequence,
        0 <= n <= 34,
    ensures
        triplets_below(gs.push(g), n) == triplets_below(gs, n) + if (g.kind as int) < n { 1int } else { 0int },
    decreases n,
{
    if n > 0 {
        lemma_triplets_below_push(gs, g, n - 1);
        assert(gs.push(g).drop_last() =~= gs);
        lemma_groups_total_nonneg(gs, n - 1);
        assert(groups_total(gs.push(g), n - 1) == groups_total(gs, n - 1) + covers(g, n - 1));
    }
}

proof fn lemma_triplets_count(gs: Seq<Group>)
    requires
        forall|i: int| 0 <= i < gs.len() ==> !(#[trigger] gs[i]).is_sequence && gs[i].kind < 34,
    ensures
        triplets_below(gs, 34) == gs.len(),
        forall|k: int| 0 <= k < 34 ==> #[trigger] groups_total(gs, k) % 3 == 0,
    decreases gs.len(),
{
    if gs.len() == 0 {
        assert(triplets_below(gs, 34) == 0) by {
            lemma_triplets_zero(gs, 34);
        }
    } else {
        let p = gs.drop_last();
        assert forall|i: int| 0 <= i < p.len() implies !(#[trigger] p[i]).is_sequence && p[i].kind < 34 by {
            assert(p[i] == gs[i]);
        }
        lemma_triplets_count(p);
        assert(gs =~= p.push(gs.last()));
        lemma_triplets_below_push(p, gs.last(), 34);
        assert forall|k: int| 0 <= k < 34 implies #[trigger] groups_total(gs, k) % 3 == 0 by {
            assert(groups_total(p, k) % 3 == 0);
        }
    }
}

proof fn lemma_triplets_zero(gs: Seq<Group>, n: int)
    requires
        gs.len() == 0,
    ensures
        triplets_below(gs, n) == 0,
    decreases n,
{
    if n > 0 {
        lemma_triplets_zero(gs, n - 1);
    }
}

/// Counts whose thirds match the groups' everywhere but at `j`, where one triplet is short.
proof fn lemma_triplet_sets_one_short(c: Seq<int>, gs: Seq<Group>, j: int, n: int)
    requires
        0 <= n <= 34,
        0 <= j < 34,
        forall|k: int| 0 <= k < 34 && k != j ==> #[trigger] c[k] / 3 == groups_total(gs, k) / 3,
        c[j] / 3 == groups_total(gs, j) / 3 - 1,
    ensures
        triplet_sets(c, n) == triplets_below(gs, n) - if j < n { 1int } else { 0int },
    decreases n,
{
    if n > 0 {
        lemma_triplet_sets_one_short(c, gs, j, n - 1);
    }
}

proof fn lemma_normal_at_most_candidate(c: Seq<int>, needed: int, start: int, p: int)
    requires
        0 <= start <= p < 34,
        c[p] >= 2,
    ensures
        normal_from(c, needed, start) <= pair_candidate(c, needed, p),
    decreases p - start,
{
    if start < p {
        lemma_normal_at_most_candidate(c, needed, start + 1, p);
    }
}

/// A hand that one more tile completes as a pair and triplets only (with at least one group
/// still to form in the loose tiles) has shanten 0.
pub proof fn lemma_one_away_triplets_has_shanten_zero(
    loose: Seq<Tile>,
    melds: Seq<Meld>,
    t: Tile,
    pair: int,
    groups: Seq<Group>,
)
    requires
        all_valid(loose),
        tile_valid(t),
        melds.len() < 4,
        groups.len() == 4 - melds.len(),
        0 <= pair < 34,
        kind_counts(loose.push(t))[pair] >= 2,
        is_decomposition(minus_pair(kind_counts(loose.push(t)), pair), groups),
        forall|i: int| 0 <= i < groups.len() ==> !(#[trigger] groups[i]).is_sequence,
    ensures
        hand_shanten(kind_counts(loose), loose.len() as int, melds.len() as int) == 0,
{
    let a = kind_counts(loose.push(t));
    let b = kind_counts(loose);
    let n = groups.len() as int;
    let needed = 4 - melds.len() as int;
    lemma_counts_push(loose, t);
    let kt = kind_of(t);
    lemma_kind_range(t);
    assert forall|i: int| 0 <= i < groups.len() implies !(#[trigger] groups[i]).is_sequence && groups[i].kind < 34 by {
        assert(group_valid(groups[i]));
    }
    lemma_triplets_count(groups);
    assert forall|k: int| 0 <= k < 34 implies #[trigger] a[k] == groups_total(groups, k) + if k == pair { 2int } else { 0int } by {
        assert(minus_pair(a, pair)[k] == groups_total(groups, k));
    }
    lemma_groups_total_nonneg(groups, kt);
    let q: int = if groups_total(groups, kt) >= 3 { pair } else { groups[0].kind as int };
    let j: int = if groups_total(groups, kt) >= 3 { kt } else { q };
    if groups_total(groups, kt) < 3 {
        assert(groups_total(groups, kt) % 3 == 0);
        assert(groups_total(groups, kt) == 0);
        assert(kt == pair);
        assert(group_valid(groups[0]));
        let q0 = groups[0].kind as int;
        assert(groups_total(groups, q0) >= 3) by {
            crate::completion::lemma_covers_ge(groups, q0, 0);
        }
    }
    assert(b[q] >= 2);
    let c2 = minus_pair(b, q);
    assert forall|k: int| 0 <= k < 34 implies #[trigger] c2[k] >= 0 by {
        lemma_groups_total_nonneg(groups, k);
    }
    assert forall|k: int| 0 <= k < 34 && k != j implies #[trigger] c2[k] / 3 == groups_total(groups, k) / 3 by {
        lemma_groups_total_nonneg(groups, k);
        assert(groups_total(groups, k) % 3 == 0);
    }
    assert(c2[j] / 3 == groups_total(groups, j) / 3 - 1) by {
        assert(groups_total(groups, j) % 3 == 0);
        assert(groups_total(groups, j) >= 3) by {
            if groups_total(groups, kt) < 3 {
                crate::completion::lemma_covers_ge(groups, j, 0);
            }
        }
    }
    lemma_triplet_sets_one_short(c2, groups, j, 34);
    crate::shanten::lemma_run_sets_nonneg(crate::shanten::remainders(c2), 0);
    assert(count_groups(c2) >= n - 1);
    assert(pair_candidate(b, needed, q) == 0);
    lemma_normal_at_most_candidate(b, needed, 0, q);
    lemma_total_counts(loose);
    assert forall|k: int| 0 <= k < 34 implies #[trigger] b[k] >= 0 by {}
    crate::shanten::lemma_parts_nonneg(b, loose.len() as int, needed);
}

/// Seven pairs: fourteen concealed tiles of seven kinds held twice each are a winning hand;
/// a kind held once rules the pattern out.
pub proof fn lemma_seven_pairs_detection(loose: Seq<Tile>, single: int)
    requires
        all_valid(loose),
        loose.len() == 14,
    ensures
        is_seven_pairs(kind_counts(loose)) ==> is_complete_spec(loose, Seq::empty()),
        0 <= single < 34 && kind_counts(loose)[single] == 1 ==> !is_seven_pairs(kind_counts(loose)),
{
}

/// Thirteen orphans: one of each terminal and honor kind with one of them twice (and nothing
/// else) is a winning hand; a missing terminal or honor kind rules the pattern out.
pub proof fn lemma_thirteen_orphans_detection(loose: Seq<Tile>, dup: int, missing: int)
    requires
        all_valid(loose),
        loose.len() == 14,
    ensures
        orphans_with_pair(kind_counts(loose), dup) ==> is_complete_spec(loose, Seq::empty()),
        is_terminal_or_honor(missing) && kind_counts(loose)[missing] == 0 ==> !is_thirteen_orphans(kind_counts(loose)),
{
    if is_terminal_or_honor(missing) && kind_counts(loose)[missing] == 0 && is_thirteen_orphans(kind_counts(loose)) {
        let d = choose|d: int| #[trigger] orphans_with_pair(kind_counts(loose), d);
        assert(kind_counts(loose)[missing] >= 1);
    }
}

/// The value of a scoring outcome (0 for none).
pub open spec fn scored_han(s: Option<(int, Seq<Yaku>, int, int, int)>) -> int {
    match s { Some(x) => x.0, None => 0 }
}

/// The conditions listed in a scoring outcome (empty for none).
pub open spec fn scored_yaku(s: Option<(int, Seq<Yaku>, int, int, int)>) -> Seq<Yaku> {
    match s { Some(x) => x.1, None => Seq::empty() }
}

proof fn lemma_without_single_pair_first(f: Conditions)
    requires
        f.ryanpeikou,
    ensures
        ordinary_yaku_first(f) == ordinary_yaku_first(Conditions { iipeikou: false, ..f }),
        ordinary_han_first(f) == ordinary_han_first(Conditions { iipeikou: false, ..f }),
{
    reveal(ordinary_yaku_first);
    reveal(ordinary_han_first);
}

proof fn lemma_without_single_pair_second(f: Conditions)
    ensures
        ordinary_yaku_second(f) == ordinary_yaku_second(Conditions { iipeikou: false, ..f }),
        ordinary_han_second(f) == ordinary_han_second(Conditions { iipeikou: false, ..f }),
        ordinary_han_second(f) >= 0,
{
    reveal(ordinary_yaku_second);
    reveal(ordinary_han_second);
}

proof fn lemma_without_single_pair_limit(f: Conditions)
    ensures
        limit_yaku(f) == limit_yaku(Conditions { iipeikou: false, ..f }),
{
    reveal(limit_yaku);
}

proof fn lemma_two_pairs_value(f: Conditions)
    requires
        f.ryanpeikou,
    ensures
        ordinary_han_first(f) >= 3,
{
    reveal(ordinary_han_first);
}

/// When identical runs occur twice over (two pairs), the weaker single-pair condition
/// changes nothing: the outcome is exactly that of the same hand without it, so it is
/// neither listed nor counted.
pub proof fn lemma_twice_twice_supersedes(f: Conditions, dealer: bool)
    requires
        f.iipeikou,
        f.ryanpeikou,
    ensures
        score_of(f, dealer) == score_of(Conditions { iipeikou: false, ..f }, dealer),
        limit_han(f) == 0 ==> score_of(f, dealer) is Some,
{
    lemma_without_single_pair_first(f);
    lemma_without_single_pair_second(f);
    lemma_without_single_pair_limit(f);
    lemma_two_pairs_value(f);
}

/// A complete hand that meets no condition at all does not score: the result is `None`,
/// not a zero value; and any result that is given has a positive value.
pub proof fn lemma_no_condition_no_score(f: Conditions, dealer: bool)
    ensures
        score_of(f, dealer) is None <==> (limit_han(f) == 0 && ordinary_han(f) == 0),
        score_of(f, dealer) is Some ==> scored_han(score_of(f, dealer)) > 0,
{
    reveal(ordinary_han_first);
    reveal(ordinary_han_second);
    reveal(limit_yaku);
}

/// A triplet claim needs three matching loose tiles: with fewer, the meld's tiles are not
/// available, so `add_meld` refuses it and changes nothing.
pub proof fn lemma_triplet_needs_three(loose: Seq<Tile>, t: Tile, meld_tiles: Seq<Tile>)
    requires
        meld_tiles == seq![t, t, t],
        loose.to_multiset().count(t) < 3,
    ensures
        !meld_tiles.to_multiset().subset_of(loose.to_multiset()),
{
    assert(meld_tiles =~= Seq::<Tile>::empty().push(t).push(t).push(t));
    assert(Seq::<Tile>::empty().to_multiset() =~= vstd::multiset::Multiset::empty());
    assert(meld_tiles.to_multiset().count(t) == 3);
}

/// The base points of a scoring outcome (0 for none).
pub open spec fn scored_base(s: Option<(int, Seq<Yaku>, int, int, int)>) -> int {
    match s { Some(x) => x.3, None => 0 }
}

/// The limit conditions.
pub open spec fn is_limit_yaku(y: Yaku) -> bool {
    y == Yaku::Kokushi || y == Yaku::Suuankou || y == Yaku::Daisangen || y == Yaku::Tsuuiisou
        || y == Yaku::Ryuuiisou || y == Yaku::Chinroutou || y == Yaku::Chuuren
}

pub open spec fn all_limit(s: Seq<Yaku>) -> bool {
    forall|i: int| 0 <= i < s.len() ==> is_limit_yaku(#[trigger] s[i])
}

proof fn lemma_all_limit_append(a: Seq<Yaku>, b: bool, y: Yaku)
    requires
        all_limit(a),
        is_limit_yaku(y),
    ensures
        all_limit(a + crate::scoring::one_if(b, y)),
        (a + crate::scoring::one_if(b, y)).len() == a.len() + if b { 1int } else { 0int },
{
    let c = a + crate::scoring::one_if(b, y);
    assert forall|i: int| 0 <= i < c.len() implies is_limit_yaku(#[trigger] c[i]) by {
        if i < a.len() { assert(c[i] == a[i]); }
    }
}

proof fn lemma_limit_list(f: Conditions)
    ensures
        all_limit(limit_yaku(f)),
        (f.kokushi || f.suuankou || f.daisangen || f.tsuuiisou || f.ryuuiisou || f.chinroutou || f.chuuren)
            ==> limit_yaku(f).len() >= 1,
{
    reveal(limit_yaku);
    let e = Seq::<Yaku>::empty();
    let s1 = e + crate::scoring::one_if(f.kokushi, Yaku::Kokushi);
    lemma_all_limit_append(e, f.kokushi, Yaku::Kokushi);
    assert(s1 =~= crate::scoring::one_if(f.kokushi, Yaku::Kokushi));
    let s2 = s1 + crate::scoring::one_if(f.suuankou, Yaku::Suuankou);
    lemma_all_limit_append(s1, f.suuankou, Yaku::Suuankou);
    let s3 = s2 + crate::scoring::one_if(f.daisangen, Yaku::Daisangen);
    lemma_all_limit_append(s2, f.daisangen, Yaku::Daisangen);
    let s4 = s3 + crate::scoring::one_if(f.tsuuiisou, Yaku::Tsuuiisou);
    lemma_all_limit_append(s3, f.tsuuiisou, Yaku::Tsuuiisou);
    let s5 = s4 + crate::scoring::one_if(f.ryuuiisou, Yaku::Ryuuiisou);
    lemma_all_limit_append(s4, f.ryuuiisou, Yaku::Ryuuiisou);
    let s6 = s5 + crate::scoring::one_if(f.chinroutou, Yaku::Chinroutou);
    lemma_all_limit_append(s5, f.chinroutou, Yaku::Chinroutou);
    let s7 = s6 + crate::scoring::one_if(f.chuuren, Yaku::Chuuren);
    lemma_all_limit_append(s6, f.chuuren, Yaku::Chuuren);
    assert(limit_yaku(f) == s7);
}

/// When any limit condition is met the lower tiers are skipped: the hand scores at least
/// 13, its base points are the fixed limit value 8000, and only limit conditions are listed.
pub proof fn lemma_limit_short_circuit(f: Conditions, dealer: bool)
    requires
        f.kokushi || f.suuankou || f.daisangen || f.tsuuiisou || f.ryuuiisou || f.chinroutou || f.chuuren,
    ensures
        score_of(f, dealer) is Some,
        scored_han(score_of(f, dealer)) >= 13,
        scored_base(score_of(f, dealer)) == 8000,
        all_limit(scored_yaku(score_of(f, dealer))),
{
    lemma_limit_list(f);
}

} // verus!
