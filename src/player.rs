use vstd::prelude::*;
use crate::tile::{Tile, tile_valid};
use crate::counts::{all_valid, kind_counts};
use crate::hand::{Hand, hand_size, is_complete_spec, hand_words, MAX_LOOSE_TILES};
use crate::shanten::hand_shanten;
use crate::text::{join_words, tile_words, tiles_to_text};

verus! {

/// Points every player starts with.
pub const STARTING_SCORE: i32 = 25000;

/// Deposit paid when declaring riichi.
pub const RIICHI_DEPOSIT: i32 = 1000;

/// One seat at the table.
#[derive(Debug)]
pub struct Player {
    pub id: usize,
    pub name: String,
    pub hand: Hand,
    pub score: i32,
    pub is_dealer: bool,
    pub discards: Vec<Tile>,
    pub is_riichi: bool,
    pub riichi_turn: Option<usize>,
    pub ippatsu: bool,
    pub double_riichi: bool,
}

/// Every field but the hand is the same.
pub open spec fn same_except_hand(a: Player, b: Player) -> bool {
    &&& a.id == b.id
    &&& a.name == b.name
    &&& a.score == b.score
    &&& a.is_dealer == b.is_dealer
    &&& a.discards == b.discards
    &&& a.is_riichi == b.is_riichi
    &&& a.riichi_turn == b.riichi_turn
    &&& a.ippatsu == b.ippatsu
    &&& a.double_riichi == b.double_riichi
}

impl Player {
    pub open spec fn wf(&self) -> bool {
        self.hand.wf() && all_valid(self.discards@)
    }

    pub open spec fn shanten_spec(&self) -> int {
        hand_shanten(kind_counts(self.hand.loose()), self.hand.loose().len() as int, self.hand.melds_view().len() as int)
    }

    pub fn new(id: usize, name: String) -> (r: Self)
        ensures
            r.wf(),
            r.id == id,
            r.name == name,
            r.hand.loose().len() == 0,
            r.hand.melds_view().len() == 0,
            r.score == STARTING_SCORE,
            !r.is_dealer,
            r.discards@.len() == 0,
            !r.is_riichi,
            r.riichi_turn is None,
            !r.ippatsu,
            !r.double_riichi,
    {
        Player {
            id,
            name,
            hand: Hand::new(),
            score: STARTING_SCORE,
            is_dealer: false,
            discards: Vec::new(),
            is_riichi: false,
            riichi_turn: None,
            ippatsu: false,
            double_riichi: false,
        }
    }

    /// Takes a tile into the hand.
    pub fn draw_tile(&mut self, tile: Tile)
        requires
            old(self).wf(),
            tile_valid(tile),
            old(self).hand.loose().len() < MAX_LOOSE_TILES,
        ensures
            final(self).wf(),
            final(self).hand.loose().to_multiset() == old(self).hand.loose().to_multiset().insert(tile),
            final(self).hand.loose().len() == old(self).hand.loose().len() + 1,
            final(self).hand.melds_view() == old(self).hand.melds_view(),
            same_except_hand(*final(self), *old(self)),
            final(self).is_dealer == old(self).is_dealer,
            final(self).is_riichi == old(self).is_riichi,
    {
        self.hand.add_tile(tile);
    }

    /// Discards `tile` from the hand onto the discard pile; `false` (and no change) when
    /// the hand does not hold it.
    pub fn discard_tile(&mut self, tile: Tile) -> (r: bool)
        requires
            old(self).wf(),
        ensures
            final(self).wf(),
            r == old(self).hand.loose().contains(tile),
            r ==> final(self).discards@ == old(self).discards@.push(tile)
                && final(self).hand.loose().to_multiset() == old(self).hand.loose().to_multiset().remove(tile),
            !r ==> final(self).discards@ == old(self).discards@ && final(self).hand.loose() == old(self).hand.loose(),
            final(self).hand.melds_view() == old(self).hand.melds_view(),
            final(self).score == old(self).score,
            final(self).id == old(self).id,
            final(self).is_dealer == old(self).is_dealer,
            final(self).is_riichi == old(self).is_riichi,
    {
        let ghost before = self.hand.loose();
        if self.hand.remove_tile(&tile) {
            proof {
                broadcast use vstd::seq_lib::group_to_multiset_ensures;
                let i = choose|i: int| 0 <= i < before.len()
                    && before[i] == tile
                    && (forall|j: int| 0 <= j < i ==> before[j] != tile)
                    && self.hand.loose() == #[trigger] before.remove(i);
                assert(self.hand.loose().to_multiset() == before.to_multiset().remove(before[i]));
                assert(before.contains(tile));
                self.hand.lemma_wf();
                old(self).hand.lemma_wf();
                assert(tile_valid(before[i]));
            }
            self.discards.push(tile);
            proof {
                let d = self.discards@;
                assert forall|j: int| 0 <= j < d.len() implies tile_valid(#[trigger] d[j]) by {
                    if j < d.len() - 1 { assert(d[j] == old(self).discards@[j]); }
                }
            }
            true
        } else {
            false
        }
    }

    /// Whether `tile` would complete the hand (see `Hand::can_win`).
    pub fn can_win(&self, tile: &Tile) -> (r: bool)
        requires
            self.wf(),
            tile_valid(*tile),
            hand_size(self.hand.loose(), self.hand.melds_view()) == 13,
        ensures
            r == is_complete_spec(self.hand.loose().push(*tile), self.hand.melds_view()),
    {
        self.hand.can_win(tile)
    }

    pub fn get_hand_string(&self) -> (r: String)
        requires
            self.wf(),
        ensures
            r@ == join_words(hand_words(self.hand.loose(), self.hand.melds_view())),
    {
        self.hand.to_string()
    }

    /// The discards' text forms separated by spaces.
    pub fn get_discards_string(&self) -> (r: String)
        requires
            self.wf(),
        ensures
            r@ == join_words(tile_words(self.discards@)),
    {
        tiles_to_text(&self.discards)
    }

    pub fn tile_count(&self) -> (r: usize)
        requires
            self.wf(),
        ensures
            r == hand_size(self.hand.loose(), self.hand.melds_view()),
    {
        self.hand.tile_count()
    }

    pub fn is_tenpai(&self) -> (r: bool)
        requires
            self.wf(),
        ensures
            r == (self.shanten_spec() == 0),
    {
        self.hand.is_tenpai()
    }

    pub fn add_score(&mut self, points: i32)
        requires
            i32::MIN <= old(self).score + points <= i32::MAX,
        ensures
            *final(self) == (Player { score: (old(self).score + points) as i32, ..*old(self) }),
    {
        self.score = self.score + points;
    }

    /// Takes points away, never going below zero.
    pub fn subtract_score(&mut self, points: i32)
        requires
            i32::MIN <= old(self).score - points <= i32::MAX,
        ensures
            *final(self) == (Player {
                score: if old(self).score - points < 0 { 0 } else { (old(self).score - points) as i32 },
                ..*old(self)
            }),
    {
        self.score = self.score - points;
        if self.score < 0 {
            self.score = 0;
        }
    }

    /// Riichi needs a concealed hand one tile from winning, the deposit, and no earlier riichi.
    pub fn can_riichi(&self) -> (r: bool)
        requires
            self.wf(),
        ensures
            r == (self.hand.melds_view().len() == 0 && self.shanten_spec() == 0
                && self.score >= RIICHI_DEPOSIT && !self.is_riichi),
    {
        if self.hand.get_melds().len() > 0 {
            return false;
        }
        if !self.is_tenpai() {
            return false;
        }
        if self.score < RIICHI_DEPOSIT {
            return false;
        }
        !self.is_riichi
    }

    /// Declares riichi on `turn` and pays the deposit; `false` (and no change) when not allowed.
    pub fn declare_riichi(&mut self, turn: usize) -> (r: bool)
        requires
            old(self).wf(),
        ensures
            final(self).wf(),
            r == (old(self).hand.melds_view().len() == 0 && old(self).shanten_spec() == 0
                && old(self).score >= RIICHI_DEPOSIT && !old(self).is_riichi),
            r ==> final(self).is_riichi && final(self).riichi_turn == Some(turn) && final(self).ippatsu
                && final(self).score == old(self).score - RIICHI_DEPOSIT,
            !r ==> *final(self) == *old(self),
            final(self).hand == old(self).hand,
            final(self).discards == old(self).discards,
    {
        if !self.can_riichi() {
            return false;
        }
        self.is_riichi = true;
        self.riichi_turn = Some(turn);
        self.ippatsu = true;
        self.subtract_score(RIICHI_DEPOSIT);
        true
    }

    pub fn clear_ippatsu(&mut self)
        ensures
            *final(self) == (Player { ippatsu: false, ..*old(self) }),
    {
        self.ippatsu = false;
    }

    /// After riichi only the last tile of the hand may be discarded.
    pub fn can_discard_after_riichi(&self, tile: &Tile) -> (r: bool)
        ensures
            r == (!self.is_riichi || (self.hand.loose().len() > 0 && self.hand.loose().last() == *tile)),
    {
        if !self.is_riichi {
            return true;
        }
        let tiles = self.hand.get_tiles();
        if tiles.len() > 0 {
            tiles[tiles.len() - 1] == *tile
        } else {
            false
        }
    }
}

} // verus!
