use vstd::prelude::*;
use rand::seq::SliceRandom;
use crate::tile::{Tile, TileType, tile_valid};
use crate::counts::{all_valid, kind_counts, create_tile_map, counts_view, count_kind, lemma_total_counts, lemma_count_kind_le_len};
use crate::hand::{Hand, count_tile, MAX_LOOSE_TILES};
use crate::shanten::{hand_shanten, shanten_of_counts};

verus! {

broadcast use vstd::seq_lib::group_to_multiset_ensures;

/// Relies on rand's `SliceRandom::choose` with `thread_rng`: `None` for an empty slice,
/// otherwise one of its elements.
#[verifier::external_body]
fn choose_tile(tiles: &Vec<Tile>) -> (r: Option<Tile>)
    ensures
        tiles@.len() == 0 <==> r is None,
        r is Some ==> tiles@.contains(r->0),
{
    tiles.choose(&mut rand::thread_rng()).copied()
}

#[derive(Debug, Clone, Copy, PartialEq, Eq, Structural)]
pub enum AiLevel {
    Random,
    Simple,
    Intermediate,
    Advanced,
}

/// Chooses discards for a computer player.
pub struct AiEngine {
    level: AiLevel,
}

pub open spec fn tile_count_in(s: Seq<Tile>, t: Tile) -> int {
    s.to_multiset().count(t) as int
}

pub open spec fn is_honor_tile(t: Tile) -> bool {
    t.tile_type is Honor
}

/// A number tile held once, with neither neighbouring rank (plain variant) in the hand.
pub open spec fn isolated_number(s: Seq<Tile>, t: Tile) -> bool {
    match t.tile_type {
        TileType::Number { suit, value } => {
            &&& !(value > 1 && s.contains(Tile { tile_type: TileType::Number { suit, value: (value - 1) as u8 }, is_red: false }))
            &&& !(value < 9 && s.contains(Tile { tile_type: TileType::Number { suit, value: (value + 1) as u8 }, is_red: false }))
            &&& tile_count_in(s, t) == 1
        },
        TileType::Honor(_) => false,
    }
}

pub open spec fn is_terminal_tile(t: Tile) -> bool {
    match t.tile_type {
        TileType::Number { value, .. } => value == 1 || value == 9,
        TileType::Honor(_) => false,
    }
}

/// The first tile of `s` from index `i` on meeting `p`.
pub open spec fn first_from(s: Seq<Tile>, p: spec_fn(Tile) -> bool, i: int) -> Option<Tile>
    decreases s.len() - i,
{
    if i < 0 || i >= s.len() { None } else if p(s[i]) { Some(s[i]) } else { first_from(s, p, i + 1) }
}

/// The simple strategy: a lone honor, else an isolated number tile, else a terminal,
/// else the first tile.
pub open spec fn simple_choice(s: Seq<Tile>) -> Option<Tile> {
    let lone_honor = first_from(s, |t: Tile| is_honor_tile(t) && tile_count_in(s, t) == 1, 0);
    let isolated = first_from(s, |t: Tile| isolated_number(s, t), 0);
    let terminal = first_from(s, |t: Tile| is_terminal_tile(t), 0);
    if lone_honor is Some {
        lone_honor
    } else if isolated is Some {
        isolated
    } else if terminal is Some {
        terminal
    } else if s.len() > 0 {
        Some(s[0])
    } else {
        None
    }
}

/// Honors are less useful than number tiles, terminals less useful than middle ranks.
pub open spec fn less_useful(a: Tile, b: Tile) -> bool {
    match (a.tile_type, b.tile_type) {
        (TileType::Honor(_), TileType::Number { .. }) => true,
        (TileType::Number { value: v1, .. }, TileType::Number { value: v2, .. }) =>
            (v1 == 1 || v1 == 9) && !(v2 == 1 || v2 == 9),
        _ => false,
    }
}

/// Shanten after discarding the tile at index `i`.
pub open spec fn shanten_without(s: Seq<Tile>, melds: int, i: int) -> int {
    hand_shanten(kind_counts(s.remove(i)), s.len() - 1, melds)
}

/// The shanten-based strategy over indices `i..`: keep the best (lowest shanten, ties
/// going to the less useful tile) seen so far.
pub open spec fn best_discard_from(s: Seq<Tile>, melds: int, i: int, best: Tile, best_sh: int) -> Tile
    decreases s.len() - i,
{
    if i < 0 || i >= s.len() {
        best
    } else {
        let sh = shanten_without(s, melds, i);
        if sh < best_sh {
            best_discard_from(s, melds, i + 1, s[i], sh)
        } else if sh == best_sh && less_useful(s[i], best) {
            best_discard_from(s, melds, i + 1, s[i], best_sh)
        } else {
            best_discard_from(s, melds, i + 1, best, best_sh)
        }
    }
}

pub open spec fn intermediate_choice(s: Seq<Tile>, melds: int) -> Option<Tile> {
    if s.len() == 0 { None } else { Some(best_discard_from(s, melds, 0, s[0], 100)) }
}

proof fn lemma_first_from_member(s: Seq<Tile>, p: spec_fn(Tile) -> bool, i: int)
    ensures
        first_from(s, p, i) is Some ==> s.contains(first_from(s, p, i)->0),
    decreases s.len() - i,
{
    if 0 <= i < s.len() && !p(s[i]) {
        lemma_first_from_member(s, p, i + 1);
    }
}

proof fn lemma_best_member(s: Seq<Tile>, melds: int, i: int, best: Tile, best_sh: int)
    requires
        s.contains(best),
    ensures
        s.contains(best_discard_from(s, melds, i, best, best_sh)),
    decreases s.len() - i,
{
    if 0 <= i < s.len() {
        assert(s.contains(s[i]));
        let sh = shanten_without(s, melds, i);
        if sh < best_sh {
            lemma_best_member(s, melds, i + 1, s[i], sh);
        } else if sh == best_sh && less_useful(s[i], best) {
            lemma_best_member(s, melds, i + 1, s[i], best_sh);
        } else {
            lemma_best_member(s, melds, i + 1, best, best_sh);
        }
    }
}

impl AiEngine {
    pub closed spec fn level_view(&self) -> AiLevel {
        self.level
    }

    pub fn new(level: AiLevel) -> (r: Self)
        ensures
            r.level_view() == level,
    {
        AiEngine { level }
    }

    /// The tile to discard from `hand`, by the engine's strategy; `None` for an empty hand.
    pub fn select_discard(&self, hand: &Hand) -> (r: Option<Tile>)
        requires
            hand.wf(),
        ensures
            hand.loose().len() == 0 <==> r is None,
            r matches Some(t) ==> hand.loose().contains(t),
            self.level_view() == AiLevel::Simple ==> r == simple_choice(hand.loose()),
            self.level_view() == AiLevel::Intermediate || self.level_view() == AiLevel::Advanced
                ==> r == intermediate_choice(hand.loose(), hand.melds_view().len() as int),
    {
        let tiles = hand.get_tiles();
        if tiles.len() == 0 {
            return None;
        }
        match self.level {
            AiLevel::Random => {
                let r = choose_tile(tiles);
                assert(tiles@ == hand.loose());
                r
            },
            AiLevel::Simple => {
                proof {
                    hand.lemma_wf();
                    let s = tiles@;
                    lemma_first_from_member(s, |t: Tile| is_honor_tile(t) && tile_count_in(s, t) == 1, 0);
                    lemma_first_from_member(s, |t: Tile| isolated_number(s, t), 0);
                    lemma_first_from_member(s, |t: Tile| is_terminal_tile(t), 0);
                    assert(s.contains(s[0]));
                }
                Self::select_simple(tiles)
            },
            AiLevel::Intermediate => {
                proof {
                    assert(tiles@.contains(tiles@[0]));
                    lemma_best_member(tiles@, hand.melds_view().len() as int, 0, tiles@[0], 100);
                }
                Self::select_intermediate(hand)
            },
            AiLevel::Advanced => {
                proof {
                    assert(tiles@.contains(tiles@[0]));
                    lemma_best_member(tiles@, hand.melds_view().len() as int, 0, tiles@[0], 100);
                }
                Self::select_advanced(hand)
            },
        }
    }

    fn first_lone_honor(tiles: &Vec<Tile>) -> (r: Option<Tile>)
        ensures
            r == first_from(tiles@, |t: Tile| is_honor_tile(t) && tile_count_in(tiles@, t) == 1, 0),
    {
        let ghost p = |t: Tile| is_honor_tile(t) && tile_count_in(tiles@, t) == 1;
        let mut i: usize = 0;
        while i < tiles.len()
            invariant
                i <= tiles@.len(),
                p == (|t: Tile| is_honor_tile(t) && tile_count_in(tiles@, t) == 1),
                first_from(tiles@, p, 0) == first_from(tiles@, p, i as int),
            decreases tiles@.len() - i,
        {
            let t = tiles[i];
            if let TileType::Honor(_) = t.tile_type {
                if count_tile(tiles, &t) == 1 {
                    return Some(t);
                }
            }
            i += 1;
        }
        None
    }

    fn first_isolated(tiles: &Vec<Tile>) -> (r: Option<Tile>)
        requires
            all_valid(tiles@),
        ensures
            r == first_from(tiles@, |t: Tile| isolated_number(tiles@, t), 0),
    {
        let ghost p = |t: Tile| isolated_number(tiles@, t);
        let mut i: usize = 0;
        while i < tiles.len()
            invariant
                i <= tiles@.len(),
                all_valid(tiles@),
                p == (|t: Tile| isolated_number(tiles@, t)),
                first_from(tiles@, p, 0) == first_from(tiles@, p, i as int),
            decreases tiles@.len() - i,
        {
            let t = tiles[i];
            assert(tile_valid(tiles@[i as int]));
            if let TileType::Number { suit, value } = t.tile_type {
                let has_prev = if value > 1 {
                    count_tile(tiles, &Tile::new_number(suit, value - 1, false)) > 0
                } else {
                    false
                };
                let has_next = if value < 9 {
                    count_tile(tiles, &Tile::new_number(suit, value + 1, false)) > 0
                } else {
                    false
                };
                if !has_prev && !has_next && count_tile(tiles, &t) == 1 {
                    return Some(t);
                }
            }
            i += 1;
        }
        None
    }

    fn first_terminal(tiles: &Vec<Tile>) -> (r: Option<Tile>)
        ensures
            r == first_from(tiles@, |t: Tile| is_terminal_tile(t), 0),
    {
        let ghost p = |t: Tile| is_terminal_tile(t);
        let mut i: usize = 0;
        while i < tiles.len()
            invariant
                i <= tiles@.len(),
                p == (|t: Tile| is_terminal_tile(t)),
                first_from(tiles@, p, 0) == first_from(tiles@, p, i as int),
            decreases tiles@.len() - i,
        {
            let t = tiles[i];
            if let TileType::Number { value, .. } = t.tile_type {
                if value == 1 || value == 9 {
                    return Some(t);
                }
            }
            i += 1;
        }
        None
    }

    /// The simple strategy (see `simple_choice`).
    pub fn select_simple(tiles: &Vec<Tile>) -> (r: Option<Tile>)
        requires
            all_valid(tiles@),
        ensures
            r == simple_choice(tiles@),
    {
        if let Some(t) = Self::first_lone_honor(tiles) {
            return Some(t);
        }
        if let Some(t) = Self::first_isolated(tiles) {
            return Some(t);
        }
        if let Some(t) = Self::first_terminal(tiles) {
            return Some(t);
        }
        if tiles.len() > 0 { Some(tiles[0]) } else { None }
    }

    /// Shanten of the hand's loose tiles without the one at index `i`.
    fn shanten_after_discard(tiles: &Vec<Tile>, melds: usize, i: usize) -> (r: i32)
        requires
            all_valid(tiles@),
            i < tiles@.len(),
            tiles@.len() <= MAX_LOOSE_TILES,
            melds <= 4,
        ensures
            r as int == shanten_without(tiles@, melds as int, i as int),
    {
        let mut rest: Vec<Tile> = Vec::new();
        let mut j: usize = 0;
        while j < tiles.len()
            invariant
                j <= tiles@.len(),
                i < tiles@.len(),
                rest@ == if j <= i { tiles@.subrange(0, j as int) } else { tiles@.remove(i as int).subrange(0, j - 1) },
            decreases tiles@.len() - j,
        {
            if j != i {
                rest.push(tiles[j]);
            }
            proof {
                if j < i {
                    assert(rest@ =~= tiles@.subrange(0, j as int + 1));
                } else if j == i {
                    assert(rest@ =~= tiles@.remove(i as int).subrange(0, j as int));
                } else {
                    assert(rest@ =~= tiles@.remove(i as int).subrange(0, j as int));
                }
            }
            j += 1;
        }
        assert(rest@ =~= tiles@.remove(i as int));
        proof {
            let r = rest@;
            assert forall|a: int| 0 <= a < r.len() implies tile_valid(#[trigger] r[a]) by {
                if a < i { assert(r[a] == tiles@[a]); } else { assert(r[a] == tiles@[a + 1]); }
            }
        }
        let c = create_tile_map(&rest);
        proof {
            lemma_total_counts(rest@);
            assert forall|k: int| 0 <= k < 34 implies #[trigger] c@[k] <= 136 by {
                lemma_count_kind_le_len(rest@, k);
                assert(counts_view(c@)[k] == count_kind(rest@, k));
            }
        }
        shanten_of_counts(&c, rest.len(), melds)
    }

    fn is_less_useful(tile1: &Tile, tile2: &Tile) -> (r: bool)
        ensures
            r == less_useful(*tile1, *tile2),
    {
        match (tile1.tile_type, tile2.tile_type) {
            (TileType::Honor(_), TileType::Number { .. }) => true,
            (TileType::Number { value: v1, .. }, TileType::Number { value: v2, .. }) => {
                let t1 = v1 == 1 || v1 == 9;
                let t2 = v2 == 1 || v2 == 9;
                t1 && !t2
            },
            _ => false,
        }
    }

    /// The shanten-based strategy (see `intermediate_choice`).
    pub fn select_intermediate(hand: &Hand) -> (r: Option<Tile>)
        requires
            hand.wf(),
        ensures
            r == intermediate_choice(hand.loose(), hand.melds_view().len() as int),
    {
        proof { hand.lemma_wf(); }
        let tiles = hand.get_tiles();
        if tiles.len() == 0 {
            return None;
        }
        let melds = hand.get_melds().len();
        let mut best_tile = tiles[0];
        let mut best_shanten: i32 = 100;
        let mut i: usize = 0;
        while i < tiles.len()
            invariant
                i <= tiles@.len(),
                tiles@ == hand.loose(),
                all_valid(tiles@),
                tiles@.len() <= MAX_LOOSE_TILES,
                melds <= 4,
                melds == hand.melds_view().len(),
                best_discard_from(tiles@, melds as int, 0, tiles@[0], 100)
                    == best_discard_from(tiles@, melds as int, i as int, best_tile, best_shanten as int),
            decreases tiles@.len() - i,
        {
            let tile = tiles[i];
            let sh = Self::shanten_after_discard(tiles, melds, i);
            if sh < best_shanten {
                best_shanten = sh;
                best_tile = tile;
            } else if sh == best_shanten {
                if Self::is_less_useful(&tile, &best_tile) {
                    best_tile = tile;
                }
            }
            i += 1;
        }
        Some(best_tile)
    }

    /// Same as the shanten-based strategy.
    pub fn select_advanced(hand: &Hand) -> (r: Option<Tile>)
        requires
            hand.wf(),
        ensures
            r == intermediate_choice(hand.loose(), hand.melds_view().len() as int),
    {
        Self::select_intermediate(hand)
    }
}

} // verus!
