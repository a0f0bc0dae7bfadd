use vstd::prelude::*;
use crate::tile::{Tile, Honor, kind_of, tile_valid, is_terminal_or_honor, NUM_KINDS};
use crate::counts::{all_valid, kind_counts, counts_view, create_tile_map};
use crate::completion::{
    Group, standard_decomposition, decompose_standard, lemma_standard_decomposition, counts_ok,
    is_thirteen_orphans, is_seven_pairs, check_kokushi, check_chitoi,
};
use crate::hand::{Hand, Meld, MeldType, meld_base, meld_valid, hand_size, is_complete_spec, is_complete};

verus! {

/// The scoring conditions.
#[derive(Debug, Clone, Copy, PartialEq, Eq, Structural)]
pub enum Yaku {
    Riichi,
    Ippatsu,
    Tsumo,
    Tanyao,
    Pinfu,
    Iipeikou,
    Yakuhai(Honor),
    Haitei,
    Houtei,
    Rinshan,
    Chankan,
    DoubleRiichi,
    Chanta,
    SanshokuDoujun,
    Ittsu,
    Toitoi,
    Sanankou,
    SanshokuDoukou,
    Sankantsu,
    Chiitoitsu,
    Shousangen,
    Honitsu,
    Junchan,
    Ryanpeikou,
    Chinitsu,
    Kokushi,
    Suuankou,
    Daisangen,
    Tsuuiisou,
    Shousuushii,
    Daisuushii,
    Ryuuiisou,
    Chinroutou,
    Chuuren,
    Suukantsu,
    Tenhou,
    Chiihou,
}

/// The outcome of scoring a winning hand.
#[derive(Debug, Clone)]
pub struct ScoringResult {
    pub han: u32,
    pub fu: u32,
    pub yaku: Vec<Yaku>,
    pub base_points: u32,
    pub total_points: u32,
}

pub struct ScoringEngine;

pub const HAKU_KIND: usize = 31;
pub const HATSU_KIND: usize = 32;
pub const CHUN_KIND: usize = 33;

/// Classes of tile kinds that the all-tiles conditions ask about.
#[derive(Debug, Clone, Copy, PartialEq, Eq, Structural)]
pub enum KindClass {
    Simple,
    Honor,
    Green,
    Terminal,
    Number,
    Suit(usize),
    SuitOrHonor(usize),
}

pub open spec fn class_has(cls: KindClass, k: int) -> bool {
    match cls {
        KindClass::Simple => 0 <= k < 27 && 1 <= k % 9 <= 7,
        KindClass::Honor => 27 <= k < 34,
        KindClass::Green => k == 19 || k == 20 || k == 21 || k == 23 || k == 25 || k == 32,
        KindClass::Terminal => 0 <= k < 27 && (k % 9 == 0 || k % 9 == 8),
        KindClass::Number => 0 <= k < 27,
        KindClass::Suit(s) => 9 * s <= k < 9 * s + 9 && s < 3,
        KindClass::SuitOrHonor(s) => (9 * s <= k < 9 * s + 9 && s < 3) || 27 <= k < 34,
    }
}

fn class_has_exec(cls: KindClass, k: usize) -> (r: bool)
    requires
        k < 34,
    ensures
        r == class_has(cls, k as int),
{
    match cls {
        KindClass::Simple => k < 27 && 1 <= k % 9 && k % 9 <= 7,
        KindClass::Honor => 27 <= k,
        KindClass::Green => k == 19 || k == 20 || k == 21 || k == 23 || k == 25 || k == 32,
        KindClass::Terminal => k < 27 && (k % 9 == 0 || k % 9 == 8),
        KindClass::Number => k < 27,
        KindClass::Suit(s) => s < 3 && 9 * s <= k && k < 9 * s + 9,
        KindClass::SuitOrHonor(s) => (s < 3 && 9 * s <= k && k < 9 * s + 9) || 27 <= k,
    }
}

/// The group a declared meld forms.
pub open spec fn meld_group(m: Meld) -> Group {
    Group { kind: meld_base(m) as usize, is_sequence: m.meld_type == MeldType::Chi }
}

/// Every kind in the meld belongs to the class.
pub open spec fn meld_in_class(m: Meld, cls: KindClass) -> bool {
    let b = meld_base(m);
    if m.meld_type == MeldType::Chi {
        class_has(cls, b) && class_has(cls, b + 1) && class_has(cls, b + 2)
    } else {
        class_has(cls, b)
    }
}

/// Every tile of the hand, loose or melded, belongs to the class.
pub open spec fn all_in_class(c: Seq<int>, melds: Seq<Meld>, cls: KindClass) -> bool {
    &&& forall|k: int| 0 <= k < 34 && #[trigger] c[k] > 0 ==> class_has(cls, k)
    &&& forall|i: int| 0 <= i < melds.len() ==> meld_in_class(#[trigger] melds[i], cls)
}

/// Tests on single groups.
#[derive(Debug, Clone, Copy, PartialEq, Eq, Structural)]
pub enum GroupTest {
    Sequence,
    Triplet,
    WithOrphan,
    WithTerminal,
}

pub open spec fn group_passes(t: GroupTest, g: Group) -> bool {
    match t {
        GroupTest::Sequence => g.is_sequence,
        GroupTest::Triplet => !g.is_sequence,
        GroupTest::WithOrphan => if g.is_sequence { g.kind % 9 == 0 || g.kind % 9 == 6 } else { is_terminal_or_honor(g.kind as int) },
        GroupTest::WithTerminal => if g.is_sequence { g.kind % 9 == 0 || g.kind % 9 == 6 } else { g.kind < 27 && (g.kind % 9 == 0 || g.kind % 9 == 8) },
    }
}

pub open spec fn all_groups_pass(gs: Seq<Group>, t: GroupTest) -> bool {
    forall|i: int| 0 <= i < gs.len() ==> group_passes(t, #[trigger] gs[i])
}

pub open spec fn has_sequence(gs: Seq<Group>, k: int) -> bool {
    gs.contains(Group { kind: k as usize, is_sequence: true })
}

pub open spec fn has_triplet(gs: Seq<Group>, k: int) -> bool {
    gs.contains(Group { kind: k as usize, is_sequence: false })
}

/// How many times the run starting at `k` occurs.
pub open spec fn run_count(gs: Seq<Group>, k: int) -> int
    decreases gs.len(),
{
    if gs.len() == 0 {
        0
    } else {
        run_count(gs.drop_last(), k) + if gs.last() == (Group { kind: k as usize, is_sequence: true }) { 1int } else { 0int }
    }
}

/// Pairs of identical runs, over start kinds below `n`.
pub open spec fn identical_run_pairs(gs: Seq<Group>, n: int) -> int
    decreases n,
{
    if n <= 0 { 0 } else { identical_run_pairs(gs, n - 1) + run_count(gs, n - 1) / 2 }
}

/// Concealed triplets among the hand's own groups: on a claimed discard the triplet of
/// the winning tile's kind counts as open.
pub open spec fn concealed_hand_triplets(gs: Seq<Group>, win_kind: int, tsumo: bool) -> int
    decreases gs.len(),
{
    if gs.len() == 0 {
        0
    } else {
        let g = gs.last();
        concealed_hand_triplets(gs.drop_last(), win_kind, tsumo)
            + if !g.is_sequence && (tsumo || g.kind as int != win_kind) { 1int } else { 0int }
    }
}

/// Declared melds that are concealed triplets or quads.
pub open spec fn concealed_melds(melds: Seq<Meld>) -> int
    decreases melds.len(),
{
    if melds.len() == 0 {
        0
    } else {
        let m = melds.last();
        concealed_melds(melds.drop_last()) + if !m.is_open && m.meld_type != MeldType::Chi { 1int } else { 0int }
    }
}

/// Which conditions a complete hand meets, before values are assigned.
#[derive(Debug, Clone, Copy, PartialEq, Eq, Structural)]
pub struct Conditions {
    pub menzen: bool,
    pub tsumo: bool,
    pub kokushi: bool,
    pub suuankou: bool,
    pub daisangen: bool,
    pub tsuuiisou: bool,
    pub ryuuiisou: bool,
    pub chinroutou: bool,
    pub chuuren: bool,
    pub chiitoitsu: bool,
    pub tanyao: bool,
    pub pinfu: bool,
    pub iipeikou: bool,
    pub ryanpeikou: bool,
    pub haku: bool,
    pub hatsu: bool,
    pub chun: bool,
    pub sanshoku_doujun: bool,
    pub ittsu: bool,
    pub chanta: bool,
    pub junchan: bool,
    pub toitoi: bool,
    pub sanankou: bool,
    pub sanshoku_doukou: bool,
    pub shousangen: bool,
    pub honitsu: bool,
    pub chinitsu: bool,
}

/// Runs of the same ranks in all three suits.
pub open spec fn has_doujun(gs: Seq<Group>) -> bool {
    exists|q: int| 0 <= q < 7 && #[trigger] has_sequence(gs, q) && has_sequence(gs, q + 9) && has_sequence(gs, q + 18)
}

/// Triplets of the same rank in all three suits.
pub open spec fn has_doukou(gs: Seq<Group>) -> bool {
    exists|q: int| 0 <= q < 9 && #[trigger] has_triplet(gs, q) && has_triplet(gs, q + 9) && has_triplet(gs, q + 18)
}

/// Runs 1-2-3, 4-5-6 and 7-8-9 of one suit.
pub open spec fn has_straight(gs: Seq<Group>) -> bool {
    exists|q: int| 0 <= q < 3 && #[trigger] has_sequence(gs, 9 * q) && has_sequence(gs, 9 * q + 3) && has_sequence(gs, 9 * q + 6)
}

/// All tiles in one suit, in the nine-gates shape.
pub open spec fn has_nine_gates(c: Seq<int>, melds: Seq<Meld>) -> bool {
    exists|s: int| 0 <= s < 3 && #[trigger] all_in_class(c, melds, suit_class(false, s)) && nine_gates(c, s)
}

/// The groups of the canonical decomposition, if any.
pub open spec fn decomposition_groups(d: Option<(int, Seq<Group>)>) -> Seq<Group> {
    match d { Some(x) => x.1, None => Seq::empty() }
}

/// Every group of the hand: the decomposition's, then the declared melds'.
pub open spec fn all_groups(d: Option<(int, Seq<Group>)>, melds: Seq<Meld>) -> Seq<Group> {
    decomposition_groups(d) + melds.map_values(|m: Meld| meld_group(m))
}

pub open spec fn dragon_triplets(gs: Seq<Group>) -> int {
    (if has_triplet(gs, 31) { 1int } else { 0int }) + (if has_triplet(gs, 32) { 1int } else { 0int })
        + (if has_triplet(gs, 33) { 1int } else { 0int })
}

pub open spec fn is_dragon(k: int) -> bool {
    31 <= k <= 33
}

pub open spec fn nine_gates(c: Seq<int>, s: int) -> bool {
    &&& c[9 * s] >= 3
    &&& c[9 * s + 8] >= 3
    &&& forall|r: int| 1 <= r <= 7 ==> #[trigger] c[9 * s + r] >= 1
}

/// The conditions met by kind counts `c` of the fourteen tiles in hand, the declared
/// `melds`, the canonical decomposition's pair `p` and groups `hg` (when there is one),
/// the winning tile's kind and whether it was self-drawn.
pub open spec fn conditions_of(
    c: Seq<int>,
    melds: Seq<Meld>,
    d: Option<(int, Seq<Group>)>,
    win_kind: int,
    tsumo: bool,
) -> Conditions {
    let menzen = melds.len() == 0;
    let std = d is Some;
    let p = match d { Some(x) => x.0, None => 0 };
    let hg = decomposition_groups(d);
    let gs = all_groups(d, melds);
    let concealed = concealed_hand_triplets(hg, win_kind, tsumo) + concealed_melds(melds);
    Conditions {
        menzen,
        tsumo,
        kokushi: menzen && is_thirteen_orphans(c),
        suuankou: tsumo && std && concealed >= 4,
        daisangen: std && dragon_triplets(gs) == 3,
        tsuuiisou: all_in_class(c, melds, KindClass::Honor),
        ryuuiisou: all_in_class(c, melds, KindClass::Green),
        chinroutou: all_in_class(c, melds, KindClass::Terminal),
        chuuren: menzen && has_nine_gates(c, melds),
        chiitoitsu: menzen && is_seven_pairs(c),
        tanyao: all_in_class(c, melds, KindClass::Simple),
        pinfu: menzen && std && all_groups_pass(hg, GroupTest::Sequence),
        iipeikou: menzen && std && identical_run_pairs(hg, 34) >= 1,
        ryanpeikou: menzen && std && identical_run_pairs(hg, 34) >= 2,
        haku: std && has_triplet(gs, 31),
        hatsu: std && has_triplet(gs, 32),
        chun: std && has_triplet(gs, 33),
        sanshoku_doujun: std && has_doujun(gs),
        ittsu: std && has_straight(gs),
        chanta: std && all_groups_pass(gs, GroupTest::WithOrphan) && is_terminal_or_honor(p),
        junchan: std && all_groups_pass(gs, GroupTest::WithTerminal) && p < 27 && (p % 9 == 0 || p % 9 == 8),
        toitoi: std && all_groups_pass(gs, GroupTest::Triplet),
        sanankou: std && concealed >= 3,
        sanshoku_doukou: std && has_doukou(gs),
        shousangen: std && is_dragon(p) && dragon_triplets(gs) == 2,
        honitsu: (exists|s: int| 0 <= s < 3 && #[trigger] all_in_class(c, melds, suit_class(true, s)))
            && !all_in_class(c, melds, KindClass::Number) && !all_in_class(c, melds, KindClass::Honor),
        chinitsu: exists|s: int| 0 <= s < 3 && #[trigger] all_in_class(c, melds, suit_class(false, s)),
    }
}

pub open spec fn one_if(b: bool, y: Yaku) -> Seq<Yaku> {
    if b { seq![y] } else { Seq::empty() }
}

pub open spec fn han_if(b: bool, v: int) -> int {
    if b { v } else { 0 }
}

#[verifier::opaque]
pub open spec fn limit_yaku(f: Conditions) -> Seq<Yaku> {
    one_if(f.kokushi, Yaku::Kokushi) + one_if(f.suuankou, Yaku::Suuankou) + one_if(f.daisangen, Yaku::Daisangen)
        + one_if(f.tsuuiisou, Yaku::Tsuuiisou) + one_if(f.ryuuiisou, Yaku::Ryuuiisou)
        + one_if(f.chinroutou, Yaku::Chinroutou) + one_if(f.chuuren, Yaku::Chuuren)
}

/// Value of the limit conditions: 13 for each one met.
pub open spec fn limit_han(f: Conditions) -> int {
    13 * limit_yaku(f).len() as int
}

pub open spec fn closed_or_open(menzen: bool, closed: int, open: int) -> int {
    if menzen { closed } else { open }
}

/// The ordinary conditions on tile patterns and draw, in order; a stronger variant
/// stands in place of the weaker one it replaces.
#[verifier::opaque]
pub open spec fn ordinary_yaku_first(f: Conditions) -> Seq<Yaku> {
    one_if(f.chiitoitsu, Yaku::Chiitoitsu) + one_if(f.tanyao, Yaku::Tanyao) + one_if(f.pinfu, Yaku::Pinfu)
        + one_if(f.tsumo && f.menzen, Yaku::Tsumo)
        + one_if(f.iipeikou && !f.ryanpeikou, Yaku::Iipeikou) + one_if(f.ryanpeikou, Yaku::Ryanpeikou)
        + one_if(f.haku, Yaku::Yakuhai(Honor::Haku)) + one_if(f.hatsu, Yaku::Yakuhai(Honor::Hatsu))
        + one_if(f.chun, Yaku::Yakuhai(Honor::Chun))
}

/// The ordinary conditions on the hand's groups and suits, in order.
#[verifier::opaque]
pub open spec fn ordinary_yaku_second(f: Conditions) -> Seq<Yaku> {
    one_if(f.sanshoku_doujun, Yaku::SanshokuDoujun) + one_if(f.ittsu, Yaku::Ittsu)
        + one_if(f.chanta && !f.junchan, Yaku::Chanta) + one_if(f.junchan, Yaku::Junchan)
        + one_if(f.toitoi, Yaku::Toitoi) + one_if(f.sanankou, Yaku::Sanankou)
        + one_if(f.sanshoku_doukou, Yaku::SanshokuDoukou) + one_if(f.shousangen, Yaku::Shousangen)
        + one_if(f.honitsu && !f.chinitsu, Yaku::Honitsu) + one_if(f.chinitsu, Yaku::Chinitsu)
}

/// All ordinary conditions met, in order.
pub open spec fn ordinary_yaku(f: Conditions) -> Seq<Yaku> {
    ordinary_yaku_first(f) + ordinary_yaku_second(f)
}

#[verifier::opaque]
pub open spec fn ordinary_han_first(f: Conditions) -> int {
    han_if(f.chiitoitsu, 2) + han_if(f.tanyao, 1) + han_if(f.pinfu, 1) + han_if(f.tsumo && f.menzen, 1)
        + han_if(f.iipeikou && !f.ryanpeikou, 1) + han_if(f.ryanpeikou, 3)
        + han_if(f.haku, 1) + han_if(f.hatsu, 1) + han_if(f.chun, 1)
}

#[verifier::opaque]
pub open spec fn ordinary_han_second(f: Conditions) -> int {
    let m = f.menzen;
    han_if(f.sanshoku_doujun, closed_or_open(m, 2, 1)) + han_if(f.ittsu, closed_or_open(m, 2, 1))
        + han_if(f.chanta && !f.junchan, closed_or_open(m, 2, 1)) + han_if(f.junchan, closed_or_open(m, 3, 2))
        + han_if(f.toitoi, 2) + han_if(f.sanankou, 2) + han_if(f.sanshoku_doukou, 2) + han_if(f.shousangen, 2)
        + han_if(f.honitsu && !f.chinitsu, closed_or_open(m, 3, 2)) + han_if(f.chinitsu, closed_or_open(m, 6, 5))
}

/// Total value of the ordinary conditions; a replaced weaker variant adds nothing.
pub open spec fn ordinary_han(f: Conditions) -> int {
    ordinary_han_first(f) + ordinary_han_second(f)
}

/// Fu: 20, plus 2 on a self-draw, rounded up to a multiple of 10.
pub open spec fn fu_of(tsumo: bool) -> int {
    if tsumo { 30 } else { 20 }
}

pub open spec fn pow2(n: nat) -> int
    decreases n,
{
    if n == 0 { 1 } else { 2 * pow2((n - 1) as nat) }
}

/// Base points from value and fu.
pub open spec fn base_points_of(han: int, fu: int) -> int {
    if 1 <= han <= 4 {
        fu * pow2((han + 2) as nat)
    } else if han == 5 {
        2000
    } else if 6 <= han <= 7 {
        3000
    } else if 8 <= han <= 10 {
        4000
    } else if 11 <= han <= 12 {
        6000
    } else {
        8000
    }
}

/// Points collected: six times the base for the dealer, four times otherwise.
pub open spec fn total_points_of(base: int, dealer: bool) -> int {
    if dealer { base * 6 } else { base * 4 }
}

/// The value, the list of conditions, fu, base and total points of a hand meeting `f`;
/// `None` when no condition is met.
pub open spec fn score_of(f: Conditions, dealer: bool) -> Option<(int, Seq<Yaku>, int, int, int)> {
    let fu = fu_of(f.tsumo);
    if limit_han(f) > 0 {
        Some((limit_han(f), limit_yaku(f), fu, 8000, total_points_of(8000, dealer)))
    } else if ordinary_han(f) == 0 {
        None
    } else {
        let base = base_points_of(ordinary_han(f), fu);
        Some((ordinary_han(f), ordinary_yaku(f), fu, base, total_points_of(base, dealer)))
    }
}

/// The full scoring of a waiting hand (loose tiles `loose`, declared `melds`) won on `w`:
/// `None` unless the fourteen tiles make a winning hand that meets some condition.
pub open spec fn score_spec(loose: Seq<Tile>, melds: Seq<Meld>, w: Tile, tsumo: bool, dealer: bool)
    -> Option<(int, Seq<Yaku>, int, int, int)>
{
    let full = loose.push(w);
    let c = kind_counts(full);
    if !is_complete_spec(full, melds) {
        None
    } else {
        score_of(conditions_of(c, melds, standard_decomposition(c, (4 - melds.len()) as nat), kind_of(w), tsumo), dealer)
    }
}

pub open spec fn result_matches(r: ScoringResult, s: (int, Seq<Yaku>, int, int, int)) -> bool {
    &&& r.han as int == s.0
    &&& r.yaku@ == s.1
    &&& r.fu as int == s.2
    &&& r.base_points as int == s.3
    &&& r.total_points as int == s.4
}

fn all_counts_in_class(c: &Vec<usize>, melds: &Vec<Meld>, cls: KindClass) -> (r: bool)
    requires
        c@.len() == 34,
        forall|i: int| 0 <= i < melds@.len() ==> meld_valid(#[trigger] melds@[i]),
    ensures
        r == all_in_class(counts_view(c@), melds@, cls),
{
    let ghost cv = counts_view(c@);
    let mut k: usize = 0;
    while k < NUM_KINDS
        invariant
            k <= 34,
            c@.len() == 34,
            cv == counts_view(c@),
            forall|j: int| 0 <= j < k && #[trigger] cv[j] > 0 ==> class_has(cls, j),
        decreases 34 - k,
    {
        if c[k] > 0 && !class_has_exec(cls, k) {
            assert(cv[k as int] > 0);
            return false;
        }
        k += 1;
    }
    let mut i: usize = 0;
    while i < melds.len()
        invariant
            i <= melds@.len(),
            forall|j: int| 0 <= j < melds@.len() ==> meld_valid(#[trigger] melds@[j]),
            forall|j: int| 0 <= j < 34 && #[trigger] cv[j] > 0 ==> class_has(cls, j),
            forall|j: int| 0 <= j < i ==> meld_in_class(#[trigger] melds@[j], cls),
        decreases melds@.len() - i,
    {
        let g = group_of_meld(&melds[i]);
        let ok = if g.is_sequence {
            class_has_exec(cls, g.kind) && class_has_exec(cls, g.kind + 1) && class_has_exec(cls, g.kind + 2)
        } else {
            class_has_exec(cls, g.kind)
        };
        if !ok {
            assert(!meld_in_class(melds@[i as int], cls));
            return false;
        }
        i += 1;
    }
    true
}

/// The group a declared meld forms.
pub fn group_of_meld(m: &Meld) -> (r: Group)
    requires
        meld_valid(*m),
    ensures
        r == meld_group(*m),
        r.kind < 34,
        r.is_sequence ==> r.kind < 27 && r.kind % 9 <= 6,
{
    assert(crate::tile::tile_valid(m.tiles@[0]));
    let k0 = m.tiles[0].kind_index();
    match m.meld_type {
        MeldType::Chi => {
            assert(crate::tile::tile_valid(m.tiles@[1]));
            assert(crate::tile::tile_valid(m.tiles@[2]));
            let k1 = m.tiles[1].kind_index();
            let k2 = m.tiles[2].kind_index();
            let b = if k0 <= k1 && k0 <= k2 { k0 } else if k1 <= k2 { k1 } else { k2 };
            Group { kind: b, is_sequence: true }
        },
        _ => Group { kind: k0, is_sequence: false },
    }
}

fn all_groups_exec(gs: &Vec<Group>, t: GroupTest) -> (r: bool)
    requires
        forall|i: int| 0 <= i < gs@.len() ==> (#[trigger] gs@[i]).kind < 34,
    ensures
        r == all_groups_pass(gs@, t),
{
    let mut i: usize = 0;
    while i < gs.len()
        invariant
            i <= gs@.len(),
            forall|j: int| 0 <= j < gs@.len() ==> (#[trigger] gs@[j]).kind < 34,
            forall|j: int| 0 <= j < i ==> group_passes(t, #[trigger] gs@[j]),
        decreases gs@.len() - i,
    {
        let g = gs[i];
        let ok = match t {
            GroupTest::Sequence => g.is_sequence,
            GroupTest::Triplet => !g.is_sequence,
            GroupTest::WithOrphan => if g.is_sequence {
                g.kind % 9 == 0 || g.kind % 9 == 6
            } else {
                g.kind >= 27 || g.kind % 9 == 0 || g.kind % 9 == 8
            },
            GroupTest::WithTerminal => if g.is_sequence {
                g.kind % 9 == 0 || g.kind % 9 == 6
            } else {
                g.kind < 27 && (g.kind % 9 == 0 || g.kind % 9 == 8)
            },
        };
        if !ok {
            assert(!group_passes(t, gs@[i as int]));
            return false;
        }
        i += 1;
    }
    true
}

fn contains_group(gs: &Vec<Group>, g: Group) -> (r: bool)
    ensures
        r == gs@.contains(g),
{
    let mut i: usize = 0;
    while i < gs.len()
        invariant
            i <= gs@.len(),
            forall|j: int| 0 <= j < i ==> gs@[j] != g,
        decreases gs@.len() - i,
    {
        if gs[i] == g {
            return true;
        }
        i += 1;
    }
    false
}

fn run_count_exec(gs: &Vec<Group>, k: usize) -> (r: usize)
    ensures
        r as int == run_count(gs@, k as int),
        r <= gs@.len(),
{
    let mut n: usize = 0;
    let mut i: usize = 0;
    while i < gs.len()
        invariant
            i <= gs@.len(),
            n <= i,
            n as int == run_count(gs@.subrange(0, i as int), k as int),
        decreases gs@.len() - i,
    {
        assert(gs@.subrange(0, i as int + 1).drop_last() =~= gs@.subrange(0, i as int));
        if gs[i] == (Group { kind: k, is_sequence: true }) {
            n += 1;
        }
        i += 1;
    }
    assert(gs@.subrange(0, gs@.len() as int) =~= gs@);
    n
}

fn identical_run_pairs_exec(gs: &Vec<Group>) -> (r: usize)
    requires
        gs@.len() <= 4,
    ensures
        r as int == identical_run_pairs(gs@, 34),
{
    let mut total: usize = 0;
    let mut k: usize = 0;
    while k < NUM_KINDS
        invariant
            k <= 34,
            gs@.len() <= 4,
            total as int == identical_run_pairs(gs@, k as int),
            total <= 2 * k,
        decreases 34 - k,
    {
        total += run_count_exec(gs, k) / 2;
        k += 1;
    }
    total
}

fn concealed_hand_triplets_exec(gs: &Vec<Group>, win_kind: usize, tsumo: bool) -> (r: usize)
    ensures
        r as int == concealed_hand_triplets(gs@, win_kind as int, tsumo),
        r <= gs@.len(),
{
    let mut n: usize = 0;
    let mut i: usize = 0;
    while i < gs.len()
        invariant
            i <= gs@.len(),
            n <= i,
            n as int == concealed_hand_triplets(gs@.subrange(0, i as int), win_kind as int, tsumo),
        decreases gs@.len() - i,
    {
        assert(gs@.subrange(0, i as int + 1).drop_last() =~= gs@.subrange(0, i as int));
        let g = gs[i];
        if !g.is_sequence && (tsumo || g.kind != win_kind) {
            n += 1;
        }
        i += 1;
    }
    assert(gs@.subrange(0, gs@.len() as int) =~= gs@);
    n
}

fn concealed_melds_exec(melds: &Vec<Meld>) -> (r: usize)
    ensures
        r as int == concealed_melds(melds@),
        r <= melds@.len(),
{
    let mut n: usize = 0;
    let mut i: usize = 0;
    while i < melds.len()
        invariant
            i <= melds@.len(),
            n <= i,
            n as int == concealed_melds(melds@.subrange(0, i as int)),
        decreases melds@.len() - i,
    {
        assert(melds@.subrange(0, i as int + 1).drop_last() =~= melds@.subrange(0, i as int));
        if !melds[i].is_open && melds[i].meld_type != MeldType::Chi {
            n += 1;
        }
        i += 1;
    }
    assert(melds@.subrange(0, melds@.len() as int) =~= melds@);
    n
}

pub open spec fn suit_class(with_honors: bool, s: int) -> KindClass {
    if with_honors { KindClass::SuitOrHonor(s as usize) } else { KindClass::Suit(s as usize) }
}

fn any_suit_in_class(c: &Vec<usize>, melds: &Vec<Meld>, with_honors: bool) -> (r: Option<usize>)
    requires
        c@.len() == 34,
        forall|i: int| 0 <= i < melds@.len() ==> meld_valid(#[trigger] melds@[i]),
    ensures
        r is Some ==> r->0 < 3 && all_in_class(counts_view(c@), melds@, suit_class(with_honors, r->0 as int)),
        r is None ==> forall|s: int| 0 <= s < 3 ==> !#[trigger] all_in_class(counts_view(c@), melds@, suit_class(with_honors, s)),
{
    let mut s: usize = 0;
    while s < 3
        invariant
            s <= 3,
            c@.len() == 34,
            forall|i: int| 0 <= i < melds@.len() ==> meld_valid(#[trigger] melds@[i]),
            forall|t: int| 0 <= t < s ==> !#[trigger] all_in_class(counts_view(c@), melds@, suit_class(with_honors, t)),
        decreases 3 - s,
    {
        let cls = if with_honors { KindClass::SuitOrHonor(s) } else { KindClass::Suit(s) };
        if all_counts_in_class(c, melds, cls) {
            return Some(s);
        }
        s += 1;
    }
    None
}

fn nine_gates_exec(c: &Vec<usize>, s: usize) -> (r: bool)
    requires
        c@.len() == 34,
        s < 3,
    ensures
        r == nine_gates(counts_view(c@), s as int),
{
    let b = 9 * s;
    if c[b] < 3 || c[b + 8] < 3 {
        return false;
    }
    let mut r: usize = 1;
    while r <= 7
        invariant
            1 <= r <= 8,
            c@.len() == 34,
            b == 9 * s,
            s < 3,
            forall|q: int| 1 <= q < r ==> #[trigger] c@[9 * s + q] >= 1,
        decreases 8 - r,
    {
        if c[b + r] < 1 {
            assert(counts_view(c@)[9 * s + r] < 1);
            return false;
        }
        r += 1;
    }
    assert forall|q: int| 1 <= q <= 7 implies #[trigger] counts_view(c@)[9 * s + q] >= 1 by {
        assert(c@[9 * s + q] >= 1);
    }
    true
}

fn doujun_exec(gs: &Vec<Group>) -> (r: bool)
    ensures
        r == has_doujun(gs@),
{
    let mut found = false;
    let mut q: usize = 0;
    while q < 7
        invariant
            q <= 7,
            found == exists|j: int| 0 <= j < q && #[trigger] has_sequence(gs@, j) && has_sequence(gs@, j + 9) && has_sequence(gs@, j + 18),
        decreases 7 - q,
    {
        let hit = contains_group(gs, Group { kind: q, is_sequence: true })
            && contains_group(gs, Group { kind: q + 9, is_sequence: true })
            && contains_group(gs, Group { kind: q + 18, is_sequence: true });
        assert(hit == (has_sequence(gs@, q as int) && has_sequence(gs@, q as int + 9) && has_sequence(gs@, q as int + 18)));
        if hit {
            found = true;
        }
        q += 1;
    }
    found
}

fn doukou_exec(gs: &Vec<Group>) -> (r: bool)
    ensures
        r == has_doukou(gs@),
{
    let mut found = false;
    let mut q: usize = 0;
    while q < 9
        invariant
            q <= 9,
            found == exists|j: int| 0 <= j < q && #[trigger] has_triplet(gs@, j) && has_triplet(gs@, j + 9) && has_triplet(gs@, j + 18),
        decreases 9 - q,
    {
        let hit = contains_group(gs, Group { kind: q, is_sequence: false })
            && contains_group(gs, Group { kind: q + 9, is_sequence: false })
            && contains_group(gs, Group { kind: q + 18, is_sequence: false });
        assert(hit == (has_triplet(gs@, q as int) && has_triplet(gs@, q as int + 9) && has_triplet(gs@, q as int + 18)));
        if hit {
            found = true;
        }
        q += 1;
    }
    found
}

fn straight_exec(gs: &Vec<Group>) -> (r: bool)
    ensures
        r == has_straight(gs@),
{
    let mut found = false;
    let mut q: usize = 0;
    while q < 3
        invariant
            q <= 3,
            found == exists|j: int| 0 <= j < q && #[trigger] has_sequence(gs@, 9 * j) && has_sequence(gs@, 9 * j + 3) && has_sequence(gs@, 9 * j + 6),
        decreases 3 - q,
    {
        let hit = contains_group(gs, Group { kind: 9 * q, is_sequence: true })
            && contains_group(gs, Group { kind: 9 * q + 3, is_sequence: true })
            && contains_group(gs, Group { kind: 9 * q + 6, is_sequence: true });
        assert(hit == (has_sequence(gs@, 9 * q as int) && has_sequence(gs@, 9 * q as int + 3) && has_sequence(gs@, 9 * q as int + 6)));
        if hit {
            found = true;
        }
        q += 1;
    }
    found
}

fn nine_gates_hand(c: &Vec<usize>, melds: &Vec<Meld>) -> (r: bool)
    requires
        c@.len() == 34,
        forall|i: int| 0 <= i < melds@.len() ==> meld_valid(#[trigger] melds@[i]),
    ensures
        r == has_nine_gates(counts_view(c@), melds@),
{
    let ghost cv = counts_view(c@);
    match any_suit_in_class(c, melds, false) {
        Some(s0) => {
            let r = nine_gates_exec(c, s0);
            proof {
                assert forall|s: int| 0 <= s < 3 && #[trigger] all_in_class(cv, melds@, suit_class(false, s)) && nine_gates(cv, s)
                    implies s == s0 as int by {
                    assert(cv[9 * s] >= 3);
                    assert(class_has(suit_class(false, s0 as int), 9 * s));
                }
            }
            r
        },
        None => false,
    }
}

fn decomposition_groups_exec(d: &Option<(usize, Vec<Group>)>) -> (r: Vec<Group>)
    ensures
        r@ == decomposition_groups(match d { Some(x) => Some((x.0 as int, x.1@)), None => None }),
{
    let mut hg: Vec<Group> = Vec::new();
    if let Some(x) = d {
        let mut i: usize = 0;
        while i < x.1.len()
            invariant
                i <= x.1@.len(),
                hg@ == x.1@.subrange(0, i as int),
            decreases x.1@.len() - i,
        {
            hg.push(x.1[i]);
            assert(hg@ =~= x.1@.subrange(0, i as int + 1));
            i += 1;
        }
        assert(x.1@.subrange(0, x.1@.len() as int) =~= x.1@);
    }
    hg
}

fn all_groups_exec_build(hg: &Vec<Group>, melds: &Vec<Meld>) -> (r: Vec<Group>)
    requires
        forall|i: int| 0 <= i < hg@.len() ==> (#[trigger] hg@[i]).kind < 34,
        forall|i: int| 0 <= i < melds@.len() ==> meld_valid(#[trigger] melds@[i]),
    ensures
        r@ == hg@ + melds@.map_values(|m: Meld| meld_group(m)),
        forall|i: int| 0 <= i < r@.len() ==> (#[trigger] r@[i]).kind < 34,
{
    let mut gs: Vec<Group> = Vec::new();
    let mut i: usize = 0;
    while i < hg.len()
        invariant
            i <= hg@.len(),
            gs@ == hg@.subrange(0, i as int),
        decreases hg@.len() - i,
    {
        gs.push(hg[i]);
        assert(gs@ =~= hg@.subrange(0, i as int + 1));
        i += 1;
    }
    assert(hg@.subrange(0, hg@.len() as int) =~= hg@);
    let ghost mg = melds@.map_values(|m: Meld| meld_group(m));
    let mut j: usize = 0;
    while j < melds.len()
        invariant
            j <= melds@.len(),
            forall|q: int| 0 <= q < melds@.len() ==> meld_valid(#[trigger] melds@[q]),
            mg == melds@.map_values(|m: Meld| meld_group(m)),
            gs@ == hg@ + mg.subrange(0, j as int),
        decreases melds@.len() - j,
    {
        let g = group_of_meld(&melds[j]);
        gs.push(g);
        assert(gs@ =~= hg@ + mg.subrange(0, j as int + 1));
        j += 1;
    }
    assert(mg.subrange(0, mg.len() as int) =~= mg);
    proof {
        assert forall|q: int| 0 <= q < gs@.len() implies (#[trigger] gs@[q]).kind < 34 by {
            if q >= hg@.len() {
                assert(meld_valid(melds@[q - hg@.len()]));
                assert(gs@[q] == meld_group(melds@[q - hg@.len()]));
            }
        }
    }
    gs
}

/// Evaluates every condition on a complete hand.
pub fn evaluate_conditions(
    c: &Vec<usize>,
    melds: &Vec<Meld>,
    d: &Option<(usize, Vec<Group>)>,
    win_kind: usize,
    tsumo: bool,
) -> (r: Conditions)
    requires
        c@.len() == 34,
        melds@.len() <= 4,
        forall|i: int| 0 <= i < melds@.len() ==> meld_valid(#[trigger] melds@[i]),
        match d {
            Some(x) => x.0 < 34 && x.1@.len() <= 4 && forall|i: int| 0 <= i < x.1@.len() ==> (#[trigger] x.1@[i]).kind < 34,
            None => true,
        },
    ensures
        r == conditions_of(counts_view(c@), melds@,
            match d { Some(x) => Some((x.0 as int, x.1@)), None => None },
            win_kind as int, tsumo),
{
    let ghost dv: Option<(int, Seq<Group>)> = match d { Some(x) => Some((x.0 as int, x.1@)), None => None };
    let menzen = melds.len() == 0;
    let std = d.is_some();
    let p: usize = match d { Some(x) => x.0, None => 0 };
    let hg = decomposition_groups_exec(d);
    let gs = all_groups_exec_build(&hg, melds);
    assert(gs@ == all_groups(dv, melds@));

    let concealed = concealed_hand_triplets_exec(&hg, win_kind, tsumo) + concealed_melds_exec(melds);
    let dragons = (if contains_group(&gs, Group { kind: HAKU_KIND, is_sequence: false }) { 1usize } else { 0 })
        + (if contains_group(&gs, Group { kind: HATSU_KIND, is_sequence: false }) { 1usize } else { 0 })
        + (if contains_group(&gs, Group { kind: CHUN_KIND, is_sequence: false }) { 1usize } else { 0 });
    let runs = identical_run_pairs_exec(&hg);
    let pair_orphan = p >= 27 || p % 9 == 0 || p % 9 == 8;
    let pair_terminal = p < 27 && (p % 9 == 0 || p % 9 == 8);
    let honitsu = any_suit_in_class(c, melds, true).is_some()
        && !all_counts_in_class(c, melds, KindClass::Number)
        && !all_counts_in_class(c, melds, KindClass::Honor);
    let chinitsu = any_suit_in_class(c, melds, false).is_some();
    let chuuren = menzen && nine_gates_hand(c, melds);
    let kokushi = menzen && check_kokushi(c);
    let chiitoitsu = menzen && check_chitoi(c);
    let tsuuiisou = all_counts_in_class(c, melds, KindClass::Honor);
    let ryuuiisou = all_counts_in_class(c, melds, KindClass::Green);
    let chinroutou = all_counts_in_class(c, melds, KindClass::Terminal);
    let tanyao = all_counts_in_class(c, melds, KindClass::Simple);
    let all_runs = all_groups_exec(&hg, GroupTest::Sequence);
    let with_orphan = all_groups_exec(&gs, GroupTest::WithOrphan);
    let with_terminal = all_groups_exec(&gs, GroupTest::WithTerminal);
    let all_triplets = all_groups_exec(&gs, GroupTest::Triplet);
    let doujun = doujun_exec(&gs);
    let doukou = doukou_exec(&gs);
    let straight = straight_exec(&gs);
    let haku = contains_group(&gs, Group { kind: HAKU_KIND, is_sequence: false });
    let hatsu = contains_group(&gs, Group { kind: HATSU_KIND, is_sequence: false });
    let chun = contains_group(&gs, Group { kind: CHUN_KIND, is_sequence: false });

    Conditions {
        menzen,
        tsumo,
        kokushi,
        suuankou: tsumo && std && concealed >= 4,
        daisangen: std && dragons == 3,
        tsuuiisou,
        ryuuiisou,
        chinroutou,
        chuuren,
        chiitoitsu,
        tanyao,
        pinfu: menzen && std && all_runs,
        iipeikou: menzen && std && runs >= 1,
        ryanpeikou: menzen && std && runs >= 2,
        haku: std && haku,
        hatsu: std && hatsu,
        chun: std && chun,
        sanshoku_doujun: std && doujun,
        ittsu: std && straight,
        chanta: std && with_orphan && pair_orphan,
        junchan: std && with_terminal && pair_terminal,
        toitoi: std && all_triplets,
        sanankou: std && concealed >= 3,
        sanshoku_doukou: std && doukou,
        shousangen: std && 31 <= p && p <= 33 && dragons == 2,
        honitsu,
        chinitsu,
    }
}

fn push_if(y: &mut Vec<Yaku>, b: bool, x: Yaku)
    ensures
        final(y)@ == old(y)@ + one_if(b, x),
{
    if b {
        y.push(x);
    }
    assert(final(y)@ =~= old(y)@ + one_if(b, x)) by {
        if b { assert(y@ =~= old(y)@ + seq![x]); } else { assert(y@ =~= old(y)@ + Seq::<Yaku>::empty()); }
    }
}

fn add_if(y: &mut Vec<Yaku>, han: &mut u32, b: bool, x: Yaku, v: u32)
    requires
        *old(han) <= 100,
        v <= 6,
    ensures
        final(y)@ == old(y)@ + one_if(b, x),
        *final(han) as int == *old(han) as int + han_if(b, v as int),
{
    push_if(y, b, x);
    if b {
        *han = *han + v;
    }
}

impl ScoringEngine {
    /// Fu: 20, plus 2 on a self-draw, rounded up to a multiple of 10.
    pub fn calculate_fu(is_tsumo: bool) -> (r: u32)
        ensures
            r as int == fu_of(is_tsumo),
    {
        let mut fu: u32 = 20;
        if is_tsumo {
            fu += 2;
        }
        ((fu + 9) / 10) * 10
    }

    /// Base points from value and fu.
    pub fn calculate_base_points(han: u32, fu: u32) -> (r: u32)
        requires
            fu <= 1000,
        ensures
            r as int == base_points_of(han as int, fu as int),
            r <= 64000,
    {
        proof { reveal_with_fuel(pow2, 7); }
        if han == 1 {
            fu * 8
        } else if han == 2 {
            fu * 16
        } else if han == 3 {
            fu * 32
        } else if han == 4 {
            fu * 64
        } else if han == 5 {
            2000
        } else if 6 <= han && han <= 7 {
            3000
        } else if 8 <= han && han <= 10 {
            4000
        } else if 11 <= han && han <= 12 {
            6000
        } else {
            8000
        }
    }

    /// Points collected: six times the base for the dealer, four times otherwise.
    pub fn calculate_total_points(base_points: u32, is_dealer: bool) -> (r: u32)
        requires
            base_points <= 100000,
        ensures
            r as int == total_points_of(base_points as int, is_dealer),
    {
        if is_dealer { base_points * 6 } else { base_points * 4 }
    }

    fn limit_part(f: &Conditions) -> (r: Vec<Yaku>)
        ensures
            r@ == limit_yaku(*f),
            r@.len() <= 7,
    {
        reveal(limit_yaku);
        let mut lim: Vec<Yaku> = Vec::new();
        push_if(&mut lim, f.kokushi, Yaku::Kokushi);
        assert(lim@ =~= one_if(f.kokushi, Yaku::Kokushi));
        push_if(&mut lim, f.suuankou, Yaku::Suuankou);
        push_if(&mut lim, f.daisangen, Yaku::Daisangen);
        push_if(&mut lim, f.tsuuiisou, Yaku::Tsuuiisou);
        push_if(&mut lim, f.ryuuiisou, Yaku::Ryuuiisou);
        push_if(&mut lim, f.chinroutou, Yaku::Chinroutou);
        push_if(&mut lim, f.chuuren, Yaku::Chuuren);
        lim
    }

    fn ordinary_first(f: &Conditions) -> (r: (Vec<Yaku>, u32))
        ensures
            r.0@ == ordinary_yaku_first(*f),
            r.1 as int == ordinary_han_first(*f),
            r.1 <= 20,
    {
        reveal(ordinary_yaku_first);
        reveal(ordinary_han_first);
        let m = f.menzen;
        let mut y: Vec<Yaku> = Vec::new();
        let mut han: u32 = 0;
        add_if(&mut y, &mut han, f.chiitoitsu, Yaku::Chiitoitsu, 2);
        assert(y@ =~= one_if(f.chiitoitsu, Yaku::Chiitoitsu));
        add_if(&mut y, &mut han, f.tanyao, Yaku::Tanyao, 1);
        add_if(&mut y, &mut han, f.pinfu, Yaku::Pinfu, 1);
        add_if(&mut y, &mut han, f.tsumo && m, Yaku::Tsumo, 1);
        add_if(&mut y, &mut han, f.iipeikou && !f.ryanpeikou, Yaku::Iipeikou, 1);
        add_if(&mut y, &mut han, f.ryanpeikou, Yaku::Ryanpeikou, 3);
        add_if(&mut y, &mut han, f.haku, Yaku::Yakuhai(Honor::Haku), 1);
        add_if(&mut y, &mut han, f.hatsu, Yaku::Yakuhai(Honor::Hatsu), 1);
        add_if(&mut y, &mut han, f.chun, Yaku::Yakuhai(Honor::Chun), 1);
        (y, han)
    }

    fn ordinary_second(f: &Conditions) -> (r: (Vec<Yaku>, u32))
        ensures
            r.0@ == ordinary_yaku_second(*f),
            r.1 as int == ordinary_han_second(*f),
            r.1 <= 40,
    {
        reveal(ordinary_yaku_second);
        reveal(ordinary_han_second);
        let m = f.menzen;
        let mut y: Vec<Yaku> = Vec::new();
        let mut han: u32 = 0;
        add_if(&mut y, &mut han, f.sanshoku_doujun, Yaku::SanshokuDoujun, if m { 2 } else { 1 });
        assert(y@ =~= one_if(f.sanshoku_doujun, Yaku::SanshokuDoujun));
        add_if(&mut y, &mut han, f.ittsu, Yaku::Ittsu, if m { 2 } else { 1 });
        add_if(&mut y, &mut han, f.chanta && !f.junchan, Yaku::Chanta, if m { 2 } else { 1 });
        add_if(&mut y, &mut han, f.junchan, Yaku::Junchan, if m { 3 } else { 2 });
        add_if(&mut y, &mut han, f.toitoi, Yaku::Toitoi, 2);
        add_if(&mut y, &mut han, f.sanankou, Yaku::Sanankou, 2);
        add_if(&mut y, &mut han, f.sanshoku_doukou, Yaku::SanshokuDoukou, 2);
        add_if(&mut y, &mut han, f.shousangen, Yaku::Shousangen, 2);
        add_if(&mut y, &mut han, f.honitsu && !f.chinitsu, Yaku::Honitsu, if m { 3 } else { 2 });
        add_if(&mut y, &mut han, f.chinitsu, Yaku::Chinitsu, if m { 6 } else { 5 });
        (y, han)
    }

    /// Turns the met conditions into a result: limit conditions first (13 each, fixed
    /// base points), otherwise the ordinary ones with their replacements; `None` when
    /// nothing is met.
    pub fn assemble_score(f: &Conditions, is_dealer: bool) -> (r: Option<ScoringResult>)
        ensures
            r is Some <==> score_of(*f, is_dealer) is Some,
            r is Some ==> result_matches(r->0, score_of(*f, is_dealer)->0),
    {
        let fu = Self::calculate_fu(f.tsumo);
        let lim = Self::limit_part(f);
        if lim.len() > 0 {
            let han = 13 * lim.len() as u32;
            let total = Self::calculate_total_points(8000, is_dealer);
            return Some(ScoringResult { han, fu, yaku: lim, base_points: 8000, total_points: total });
        }
        let (mut y, han1) = Self::ordinary_first(f);
        let (y2, han2) = Self::ordinary_second(f);
        let mut y2 = y2;
        y.append(&mut y2);
        let han = han1 + han2;
        assert(y@ == ordinary_yaku(*f));
        if han == 0 {
            return None;
        }
        let base = Self::calculate_base_points(han, fu);
        let total = Self::calculate_total_points(base, is_dealer);
        Some(ScoringResult { han, fu, yaku: y, base_points: base, total_points: total })
    }

    /// Scores a waiting `hand` (size 13, three per meld) won on `winning_tile`. `None`
    /// unless the fourteen tiles make a winning hand that meets at least one condition.
    pub fn calculate_score(hand: &Hand, winning_tile: &Tile, is_tsumo: bool, is_dealer: bool) -> (r: Option<ScoringResult>)
        requires
            hand.wf(),
            tile_valid(*winning_tile),
            hand_size(hand.loose(), hand.melds_view()) == 13,
        ensures
            r is Some <==> score_spec(hand.loose(), hand.melds_view(), *winning_tile, is_tsumo, is_dealer) is Some,
            r is Some ==> result_matches(r->0, score_spec(hand.loose(), hand.melds_view(), *winning_tile, is_tsumo, is_dealer)->0),
    {
        proof { hand.lemma_wf(); }
        let loose = hand.get_tiles();
        let melds = hand.get_melds();
        let mut all_tiles = loose.clone();
        assert(all_tiles@ =~= loose@);
        all_tiles.push(*winning_tile);
        proof {
            let s = all_tiles@;
            assert forall|i: int| 0 <= i < s.len() implies tile_valid(#[trigger] s[i]) by {
                if i < s.len() - 1 { assert(s[i] == loose@[i]); }
            }
        }
        if !is_complete(&all_tiles, melds) {
            return None;
        }
        let c = create_tile_map(&all_tiles);
        let ghost cv = counts_view(c@);
        let n = 4 - melds.len();
        let d = decompose_standard(&c, n);
        proof {
            assert(counts_ok(cv));
            lemma_standard_decomposition(cv, n as nat);
            if d is Some {
                let (pp, gg) = standard_decomposition(cv, n as nat)->0;
                assert forall|i: int| 0 <= i < gg.len() implies (#[trigger] gg[i]).kind < 34 by {
                    assert(crate::completion::group_valid(gg[i]));
                }
            }
        }
        let win_kind = winning_tile.kind_index();
        let f = evaluate_conditions(&c, melds, &d, win_kind, is_tsumo);
        Self::assemble_score(&f, is_dealer)
    }

    /// All simples: every tile is a number tile of rank 2 to 8.
    pub fn check_tanyao(tiles: &Vec<Tile>) -> (r: bool)
        requires
            all_valid(tiles@),
        ensures
            r == forall|i: int| 0 <= i < tiles@.len() ==> class_has(KindClass::Simple, #[trigger] kind_of(tiles@[i])),
    {
        let mut i: usize = 0;
        while i < tiles.len()
            invariant
                i <= tiles@.len(),
                all_valid(tiles@),
                forall|j: int| 0 <= j < i ==> class_has(KindClass::Simple, #[trigger] kind_of(tiles@[j])),
            decreases tiles@.len() - i,
        {
            assert(tile_valid(tiles@[i as int]));
            let k = tiles[i].kind_index();
            if !class_has_exec(KindClass::Simple, k) {
                return false;
            }
            i += 1;
        }
        true
    }
}

} // verus!
