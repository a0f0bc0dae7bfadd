use vstd::prelude::*;
use vstd::string::*;
use crate::tile::{Tile, kind_of, tile_valid};
use crate::counts::{all_valid, kind_counts, create_tile_map, counts_view, count_kind, lemma_total_counts, lemma_count_kind_le_len};
use crate::completion::{
    is_seven_pairs, is_thirteen_orphans, is_standard_form,
    lemma_standard_decomposition, check_chitoi, check_kokushi, decompose_standard, counts_ok,
};
use crate::shanten::{hand_shanten, shanten_of_counts};
use crate::text::{join_words, tile_words, concat_tiles, push_word, concat_tile_text};

verus! {

broadcast use vstd::seq_lib::group_to_multiset_ensures;

/// The most loose tiles a hand can hold: a full set has 136 tiles.
pub const MAX_LOOSE_TILES: usize = 136;

#[derive(Debug, Clone, Copy, PartialEq, Eq, Structural)]
pub enum MeldType {
    Chi,
    Pon,
    Kan,
}

/// A declared group: a run (`Chi`), a triplet (`Pon`) or a quad (`Kan`).
/// `is_open` marks a group formed by claiming another player's discard.
#[derive(Debug, Clone)]
pub struct Meld {
    pub meld_type: MeldType,
    pub tiles: Vec<Tile>,
    pub is_open: bool,
}

pub open spec fn min3(a: int, b: int, c: int) -> int {
    if a <= b && a <= c { a } else if b <= c { b } else { c }
}

/// The lowest kind of a meld: the start of a run, or the kind of a triplet or quad.
pub open spec fn meld_base(m: Meld) -> int {
    if m.tiles@.len() == 0 {
        0
    } else if m.meld_type == MeldType::Chi && m.tiles@.len() >= 3 {
        min3(kind_of(m.tiles@[0]), kind_of(m.tiles@[1]), kind_of(m.tiles@[2]))
    } else {
        kind_of(m.tiles@[0])
    }
}

/// A well-formed meld: three consecutive ranks of one suit in any order, three tiles
/// of one kind, or four tiles of one kind.
pub open spec fn meld_valid(m: Meld) -> bool {
    &&& all_valid(m.tiles@)
    &&& match m.meld_type {
        MeldType::Chi => {
            let b = meld_base(m);
            &&& m.tiles@.len() == 3
            &&& 0 <= b < 27 && b % 9 <= 6
            &&& kind_of(m.tiles@[0]) != kind_of(m.tiles@[1])
            &&& kind_of(m.tiles@[0]) != kind_of(m.tiles@[2])
            &&& kind_of(m.tiles@[1]) != kind_of(m.tiles@[2])
            &&& forall|i: int| 0 <= i < 3 ==> b <= #[trigger] kind_of(m.tiles@[i]) <= b + 2
        },
        MeldType::Pon => m.tiles@.len() == 3 && forall|i: int| 0 <= i < 3 ==> #[trigger] kind_of(m.tiles@[i]) == kind_of(m.tiles@[0]),
        MeldType::Kan => m.tiles@.len() == 4 && forall|i: int| 0 <= i < 4 ==> #[trigger] kind_of(m.tiles@[i]) == kind_of(m.tiles@[0]),
    }
}

pub open spec fn sorted_by_kind(s: Seq<Tile>) -> bool {
    forall|i: int, j: int| 0 <= i < j < s.len() ==> kind_of(#[trigger] s[i]) <= kind_of(#[trigger] s[j])
}

/// A player's hand: loose (concealed) tiles kept in kind order, and declared melds.
#[derive(Debug)]
pub struct Hand {
    tiles: Vec<Tile>,
    melds: Vec<Meld>,
}

/// Size of a hand for bookkeeping: loose tiles plus three per meld (a quad counts as three).
pub open spec fn hand_size(loose: Seq<Tile>, melds: Seq<Meld>) -> int {
    loose.len() + 3 * melds.len() as int
}

/// Groups still needed in the loose tiles besides the pair.
pub open spec fn groups_needed(melds: Seq<Meld>) -> nat {
    (4 - melds.len()) as nat
}

/// The three winning patterns on the loose tiles with `melds` declared (14 tiles in all).
/// Seven pairs and thirteen orphans need a fully concealed hand.
pub open spec fn is_complete_spec(loose: Seq<Tile>, melds: Seq<Meld>) -> bool {
    let c = kind_counts(loose);
    ||| melds.len() == 0 && is_thirteen_orphans(c)
    ||| melds.len() == 0 && is_seven_pairs(c)
    ||| is_standard_form(c, groups_needed(melds))
}

/// Space-separated words of a hand's text: loose tiles, then `|` and each meld's tiles.
pub open spec fn hand_words(loose: Seq<Tile>, melds: Seq<Meld>) -> Seq<Seq<char>> {
    tile_words(loose) + if melds.len() == 0 {
        Seq::empty()
    } else {
        seq![seq!['|']] + melds.map_values(|m: Meld| concat_tiles(m.tiles@))
    }
}

/// Whether the loose tiles and declared melds make a winning hand.
/// The tile count must be exactly 14, counting three for each meld.
pub fn is_complete(loose: &Vec<Tile>, melds: &Vec<Meld>) -> (r: bool)
    requires
        all_valid(loose@),
        hand_size(loose@, melds@) == 14,
    ensures
        r == is_complete_spec(loose@, melds@),
{
    let c = create_tile_map(loose);
    let ghost cv = counts_view(c@);
    let n = 4 - melds.len();
    let found = decompose_standard(&c, n).is_some();
    proof {
        assert(counts_ok(cv));
        lemma_standard_decomposition(cv, n as nat);
    }
    if melds.len() == 0 {
        if check_kokushi(&c) {
            return true;
        }
        if check_chitoi(&c) {
            return true;
        }
    }
    found
}

impl Hand {
    pub closed spec fn loose(&self) -> Seq<Tile> {
        self.tiles@
    }

    pub closed spec fn melds_view(&self) -> Seq<Meld> {
        self.melds@
    }

    /// Loose tiles valid and sorted by kind, at most four melds, each well formed.
    pub closed spec fn wf(&self) -> bool {
        &&& all_valid(self.tiles@)
        &&& sorted_by_kind(self.tiles@)
        &&& self.tiles@.len() <= MAX_LOOSE_TILES
        &&& self.melds@.len() <= 4
        &&& forall|i: int| 0 <= i < self.melds@.len() ==> meld_valid(#[trigger] self.melds@[i])
    }

    pub proof fn lemma_wf(&self)
        requires
            self.wf(),
        ensures
            all_valid(self.loose()),
            sorted_by_kind(self.loose()),
            self.loose().len() <= MAX_LOOSE_TILES,
            self.melds_view().len() <= 4,
            forall|i: int| 0 <= i < self.melds_view().len() ==> meld_valid(#[trigger] self.melds_view()[i]),
    {
    }

    pub fn new() -> (r: Self)
        ensures
            r.wf(),
            r.loose() == Seq::<Tile>::empty(),
            r.melds_view() == Seq::<Meld>::empty(),
    {
        Hand { tiles: Vec::new(), melds: Vec::new() }
    }

    /// Adds a tile, keeping the loose tiles in kind order: it goes after every tile
    /// of the same or a lower kind.
    pub fn add_tile(&mut self, tile: Tile)
        requires
            old(self).wf(),
            tile_valid(tile),
            old(self).loose().len() < MAX_LOOSE_TILES,
        ensures
            final(self).wf(),
            final(self).melds_view() == old(self).melds_view(),
            final(self).loose().to_multiset() == old(self).loose().to_multiset().insert(tile),
            final(self).loose().len() == old(self).loose().len() + 1,
            exists|p: int| 0 <= p <= old(self).loose().len()
                && final(self).loose() == #[trigger] old(self).loose().insert(p, tile)
                && (forall|j: int| 0 <= j < p ==> kind_of(old(self).loose()[j]) <= kind_of(tile))
                && (forall|j: int| p <= j < old(self).loose().len() ==> kind_of(old(self).loose()[j]) > kind_of(tile)),
    {
        let k = tile.kind_index();
        let mut p: usize = 0;
        while p < self.tiles.len()
            invariant
                self.wf(),
                k as int == kind_of(tile),
                p <= self.tiles@.len(),
                forall|j: int| 0 <= j < p ==> kind_of(self.tiles@[j]) <= kind_of(tile),
            ensures
                self.wf(),
                p <= self.tiles@.len(),
                forall|j: int| 0 <= j < p ==> kind_of(self.tiles@[j]) <= kind_of(tile),
                p == self.tiles@.len() || kind_of(self.tiles@[p as int]) > kind_of(tile),
            decreases self.tiles@.len() - p,
        {
            assert(tile_valid(self.tiles@[p as int]));
            if self.tiles[p].kind_index() > k {
                break;
            }
            p += 1;
        }
        if p < self.tiles.len() {
            assert(tile_valid(self.tiles@[p as int]));
        }
        let ghost old_tiles = self.tiles@;
        self.tiles.insert(p, tile);
        proof {
            assert forall|j: int| p <= j < old_tiles.len() implies kind_of(old_tiles[j]) > kind_of(tile) by {
                assert(kind_of(old_tiles[p as int]) <= kind_of(old_tiles[j]) || p == j);
            }
            let nt = self.tiles@;
            assert forall|i: int| 0 <= i < nt.len() implies tile_valid(#[trigger] nt[i]) by {
                if i < p { assert(nt[i] == old_tiles[i]); }
                else if i > p { assert(nt[i] == old_tiles[i - 1]); }
            }
            assert forall|i: int, j: int| 0 <= i < j < nt.len() implies kind_of(#[trigger] nt[i]) <= kind_of(#[trigger] nt[j]) by {
                if j < p {
                    assert(nt[i] == old_tiles[i] && nt[j] == old_tiles[j]);
                } else if j == p {
                    assert(nt[i] == old_tiles[i]);
                } else if i < p {
                    assert(nt[i] == old_tiles[i] && nt[j] == old_tiles[j - 1]);
                } else if i == p {
                    assert(nt[j] == old_tiles[j - 1]);
                } else {
                    assert(nt[i] == old_tiles[i - 1] && nt[j] == old_tiles[j - 1]);
                }
            }
            assert(old_tiles.insert(p as int, tile) == nt);
            assert(nt.remove(p as int) =~= old_tiles);
            assert(nt[p as int] == tile);
            assert(nt.to_multiset().remove(tile) == old_tiles.to_multiset());
            assert(nt.to_multiset().count(tile) > 0) by {
                assert(nt.contains(tile));
            }
            assert(nt.to_multiset() =~= old_tiles.to_multiset().insert(tile));
        }
    }

    /// Removes the first loose tile equal to `tile`; `false` (and no change) when there is none.
    pub fn remove_tile(&mut self, tile: &Tile) -> (r: bool)
        requires
            old(self).wf(),
        ensures
            final(self).wf(),
            final(self).melds_view() == old(self).melds_view(),
            r == old(self).loose().contains(*tile),
            r ==> exists|i: int| 0 <= i < old(self).loose().len()
                && old(self).loose()[i] == *tile
                && (forall|j: int| 0 <= j < i ==> old(self).loose()[j] != *tile)
                && final(self).loose() == #[trigger] old(self).loose().remove(i),
            !r ==> final(self).loose() == old(self).loose(),
    {
        let mut i: usize = 0;
        while i < self.tiles.len()
            invariant
                self.wf(),
                self.tiles@ == old(self).tiles@,
                self.melds@ == old(self).melds@,
                i <= self.tiles@.len(),
                forall|j: int| 0 <= j < i ==> self.tiles@[j] != *tile,
            decreases self.tiles@.len() - i,
        {
            if self.tiles[i] == *tile {
                let ghost old_tiles = self.tiles@;
                self.tiles.remove(i);
                proof {
                    let nt = self.tiles@;
                    assert forall|a: int| 0 <= a < nt.len() implies tile_valid(#[trigger] nt[a]) by {
                        if a < i { assert(nt[a] == old_tiles[a]); } else { assert(nt[a] == old_tiles[a + 1]); }
                    }
                    assert forall|a: int, b: int| 0 <= a < b < nt.len() implies kind_of(#[trigger] nt[a]) <= kind_of(#[trigger] nt[b]) by {
                        let a2 = if a < i { a } else { a + 1 };
                        let b2 = if b < i { b } else { b + 1 };
                        assert(nt[a] == old_tiles[a2] && nt[b] == old_tiles[b2]);
                    }
                    assert(old_tiles.contains(*tile));
                }
                return true;
            }
            i += 1;
        }
        proof {
            assert(!self.tiles@.contains(*tile));
        }
        false
    }

    pub fn get_tiles(&self) -> (r: &Vec<Tile>)
        ensures
            r@ == self.loose(),
    {
        &self.tiles
    }

    pub fn get_melds(&self) -> (r: &Vec<Meld>)
        ensures
            r@ == self.melds_view(),
    {
        &self.melds
    }

    /// Declares a meld, taking each of its tiles out of the loose tiles. When some tile
    /// is missing, or four melds are already declared, nothing changes and the result is `false`.
    pub fn add_meld(&mut self, meld: Meld) -> (r: bool)
        requires
            old(self).wf(),
            meld_valid(meld),
        ensures
            final(self).wf(),
            r == (old(self).melds_view().len() < 4
                && meld.tiles@.to_multiset().subset_of(old(self).loose().to_multiset())),
            r ==> final(self).melds_view() == old(self).melds_view().push(meld)
                && final(self).loose().to_multiset() == old(self).loose().to_multiset().sub(meld.tiles@.to_multiset())
                && final(self).loose().len() + meld.tiles@.len() == old(self).loose().len(),
            !r ==> *final(self) == *old(self),
    {
        if self.melds.len() >= 4 {
            return false;
        }
        let mut rest = Hand { tiles: self.tiles.clone(), melds: Vec::new() };
        assert(rest.tiles@ =~= self.tiles@);
        let ghost orig = self.tiles@.to_multiset();
        let ghost mt = meld.tiles@;
        let mut j: usize = 0;
        while j < meld.tiles.len()
            invariant
                rest.wf(),
                self.wf(),
                self.tiles@ == old(self).tiles@,
                self.melds@ == old(self).melds@,
                self.melds@.len() < 4,
                j <= mt.len(),
                mt == meld.tiles@,
                orig == self.tiles@.to_multiset(),
                mt.subrange(0, j as int).to_multiset().subset_of(orig),
                rest.tiles@.len() + j == self.tiles@.len(),
                rest.tiles@.to_multiset() == orig.sub(mt.subrange(0, j as int).to_multiset()),
            decreases mt.len() - j,
        {
            let t = meld.tiles[j];
            let ghost before = rest.tiles@;
            let ghost pre = mt.subrange(0, j as int);
            assert(mt.subrange(0, j as int + 1) =~= pre.push(t));
            if !rest.remove_tile(&t) {
                proof {
                    assert(rest.tiles@.to_multiset().count(t) == 0);
                    assert(orig.count(t) <= pre.to_multiset().count(t));
                    assert(mt.subrange(0, j as int + 1).to_multiset().count(t) == pre.to_multiset().count(t) + 1);
                    lemma_prefix_count_le(mt, j as int + 1, t);
                    assert(!mt.to_multiset().subset_of(orig));
                }
                return false;
            }
            proof {
                let i = choose|i: int| 0 <= i < before.len() && before[i] == t
                    && (forall|k: int| 0 <= k < i ==> before[k] != t)
                    && rest.tiles@ == #[trigger] before.remove(i);
                assert(rest.tiles@.to_multiset() == before.to_multiset().remove(t));
                assert(before.to_multiset().count(t) > 0);
                let np = pre.push(t);
                assert(np.to_multiset() == pre.to_multiset().insert(t));
                assert(np.to_multiset().subset_of(orig)) by {
                    assert forall|x: Tile| np.to_multiset().count(x) <= orig.count(x) by {
                        if x == t {
                            assert(before.to_multiset().count(t) == orig.count(t) - pre.to_multiset().count(t));
                        }
                    }
                }
                assert(rest.tiles@.to_multiset() =~= orig.sub(np.to_multiset()));
            }
            j += 1;
        }
        assert(mt.subrange(0, mt.len() as int) =~= mt);
        self.tiles = rest.tiles;
        self.melds.push(meld);
        proof {
            let nm = self.melds@;
            assert forall|i: int| 0 <= i < nm.len() implies meld_valid(#[trigger] nm[i]) by {
                if i < nm.len() - 1 { assert(nm[i] == old(self).melds@[i]); }
            }
        }
        true
    }

    /// Hand size for bookkeeping: loose tiles plus three per meld (a quad counts as three).
    pub fn tile_count(&self) -> (r: usize)
        requires
            self.wf(),
        ensures
            r == hand_size(self.loose(), self.melds_view()),
    {
        self.tiles.len() + self.melds.len() * 3
    }

    /// Whether adding `winning_tile` makes a winning hand. The hand must be waiting: its
    /// size (three per meld) is 13, so that the winning tile makes 14.
    pub fn can_win(&self, winning_tile: &Tile) -> (r: bool)
        requires
            self.wf(),
            tile_valid(*winning_tile),
            hand_size(self.loose(), self.melds_view()) == 13,
        ensures
            r == is_complete_spec(self.loose().push(*winning_tile), self.melds_view()),
    {
        let mut test_tiles = self.tiles.clone();
        assert(test_tiles@ =~= self.tiles@);
        test_tiles.push(*winning_tile);
        proof {
            let s = test_tiles@;
            assert forall|i: int| 0 <= i < s.len() implies tile_valid(#[trigger] s[i]) by {
                if i < s.len() - 1 { assert(s[i] == self.tiles@[i]); }
            }
        }
        is_complete(&test_tiles, &self.melds)
    }

    /// Distance to a winning hand (see `hand_shanten`); never negative.
    pub fn shanten(&self) -> (r: i32)
        requires
            self.wf(),
        ensures
            r as int == hand_shanten(kind_counts(self.loose()), self.loose().len() as int, self.melds_view().len() as int),
            r >= 0,
    {
        let c = create_tile_map(&self.tiles);
        proof {
            lemma_total_counts(self.tiles@);
            assert forall|k: int| 0 <= k < 34 implies #[trigger] c@[k] <= 136 by {
                lemma_count_kind_le_len(self.tiles@, k);
                assert(counts_view(c@)[k] == count_kind(self.tiles@, k));
            }
        }
        shanten_of_counts(&c, self.tiles.len(), self.melds.len())
    }

    /// One tile away from winning.
    pub fn is_tenpai(&self) -> (r: bool)
        requires
            self.wf(),
        ensures
            r == (hand_shanten(kind_counts(self.loose()), self.loose().len() as int, self.melds_view().len() as int) == 0),
    {
        self.shanten() == 0
    }

    /// The hand as text: loose tiles, then `|` and each meld's tiles, separated by spaces.
    pub fn to_string(&self) -> (r: String)
        requires
            self.wf(),
        ensures
            r@ == join_words(hand_words(self.loose(), self.melds_view())),
    {
        let mut r = String::new();
        let ghost lw = tile_words(self.tiles@);
        let mut i: usize = 0;
        while i < self.tiles.len()
            invariant
                self.wf(),
                i <= self.tiles@.len(),
                lw == tile_words(self.tiles@),
                r@ == join_words(lw.subrange(0, i as int)),
            decreases self.tiles@.len() - i,
        {
            assert(tile_valid(self.tiles@[i as int]));
            let w = self.tiles[i].to_string();
            push_word(&mut r, w.as_str(), i == 0, Ghost(lw.subrange(0, i as int)));
            assert(lw.subrange(0, i as int + 1) =~= lw.subrange(0, i as int).push(w@));
            i += 1;
        }
        assert(lw.subrange(0, lw.len() as int) =~= lw);
        if self.melds.len() > 0 {
            let ghost mw = self.melds@.map_values(|m: Meld| concat_tiles(m.tiles@));
            let ghost words = lw + seq![seq!['|']];
            proof { reveal_strlit("|"); }
            let bar = "|";
            assert(bar@ =~= seq!['|']);
            push_word(&mut r, bar, self.tiles.len() == 0, Ghost(lw));
            assert(lw.push(seq!['|']) =~= words);
            assert(r@ == join_words(words));
            assert(words + mw.subrange(0, 0) =~= words);
            let mut j: usize = 0;
            while j < self.melds.len()
                invariant
                    self.wf(),
                    j <= self.melds@.len(),
                    mw == self.melds@.map_values(|m: Meld| concat_tiles(m.tiles@)),
                    r@ == join_words(words + mw.subrange(0, j as int)),
                    words.len() > 0,
                decreases self.melds@.len() - j,
            {
                assert(meld_valid(self.melds@[j as int]));
                let w = concat_tile_text(&self.melds[j].tiles);
                push_word(&mut r, w.as_str(), false, Ghost(words + mw.subrange(0, j as int)));
                assert(words + mw.subrange(0, j as int + 1) =~= (words + mw.subrange(0, j as int)).push(w@));
                j += 1;
            }
            assert(mw.subrange(0, mw.len() as int) =~= mw);
            assert(hand_words(self.tiles@, self.melds@) =~= words + mw);
        } else {
            assert(hand_words(self.tiles@, self.melds@) =~= lw);
        }
        r
    }
}

proof fn lemma_prefix_count_le(s: Seq<Tile>, n: int, t: Tile)
    requires
        0 <= n <= s.len(),
    ensures
        s.subrange(0, n).to_multiset().count(t) <= s.to_multiset().count(t),
    decreases s.len() - n,
{
    if n < s.len() {
        lemma_prefix_count_le(s, n + 1, t);
        assert(s.subrange(0, n + 1) =~= s.subrange(0, n).push(s[n]));
    } else {
        assert(s.subrange(0, n) =~= s);
    }
}

impl Default for Hand {
    fn default() -> (r: Self)
        ensures
            r.wf(),
            r.loose() == Seq::<Tile>::empty(),
            r.melds_view() == Seq::<Meld>::empty(),
    {
        Self::new()
    }
}

/// How many tiles of `tiles` equal `t` exactly (the bonus mark included).
pub fn count_tile(tiles: &Vec<Tile>, t: &Tile) -> (r: usize)
    ensures
        r == tiles@.to_multiset().count(*t),
{
    let mut n: usize = 0;
    let mut i: usize = 0;
    while i < tiles.len()
        invariant
            i <= tiles@.len(),
            n <= i,
            n == tiles@.subrange(0, i as int).to_multiset().count(*t),
        decreases tiles@.len() - i,
    {
        assert(tiles@.subrange(0, i as int + 1) =~= tiles@.subrange(0, i as int).push(tiles@[i as int]));
        if tiles[i] == *t {
            n += 1;
        }
        i += 1;
    }
    assert(tiles@.subrange(0, tiles@.len() as int) =~= tiles@);
    n
}

} // verus!
