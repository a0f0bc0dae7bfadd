use vstd::prelude::*;
use rand::seq::SliceRandom;
use vstd::multiset::Multiset;
use crate::tile::{Tile, TileType, Suit, Honor, tile_valid, kind_of};
use crate::counts::{all_valid, count_kind, create_tile_map, counts_view, kind_counts, lemma_count_kind_push};
use crate::hand::{Meld, MeldType, count_tile, MAX_LOOSE_TILES, hand_size, is_complete_spec};
use crate::player::{Player, same_except_hand};
use crate::hand::hand_words;
use crate::text::{join_words, tile_words, tiles_to_text, append_decimal, decimal_text, append_signed_decimal, signed_decimal_text};
use vstd::string::*;

verus! {

broadcast use vstd::seq_lib::group_to_multiset_ensures;

/// Relies on rand's `SliceRandom::shuffle` with `thread_rng`: it only swaps elements,
/// so the result is a permutation of the input.
#[verifier::external_body]
fn shuffle_tiles(v: &mut Vec<Tile>)
    ensures
        final(v)@.len() == old(v)@.len(),
        final(v)@.to_multiset() == old(v)@.to_multiset(),
{
    v.shuffle(&mut rand::thread_rng());
}

pub open spec fn plain_number(suit: Suit, value: int) -> Tile {
    Tile { tile_type: TileType::Number { suit, value: value as u8 }, is_red: false }
}

/// The two hand tiles a run claim on `t` needs: pattern 0 takes the two ranks below,
/// 1 the ranks on either side, 2 the two ranks above.
pub open spec fn chi_partners(t: Tile, pattern: int) -> Option<(Tile, Tile)> {
    match t.tile_type {
        TileType::Number { suit, value } =>
            if pattern == 0 && value >= 3 {
                Some((plain_number(suit, value - 2), plain_number(suit, value - 1)))
            } else if pattern == 1 && 2 <= value <= 8 {
                Some((plain_number(suit, value - 1), plain_number(suit, value + 1)))
            } else if pattern == 2 && value <= 7 {
                Some((plain_number(suit, value + 1), plain_number(suit, value + 2)))
            } else {
                None
            },
        TileType::Honor(_) => None,
    }
}

pub open spec fn chi_available(loose: Seq<Tile>, t: Tile, pattern: int) -> bool {
    match chi_partners(t, pattern) {
        Some(ab) => loose.contains(ab.0) && loose.contains(ab.1),
        None => false,
    }
}

/// The start of a player's line: turn marker, dealer marker, name and score.
pub open spec fn player_head(p: Player, current: bool) -> Seq<char> {
    (if current { ">"@ } else { " "@ }) + (if p.is_dealer { "親"@ } else { " "@ }) + " "@ + p.name@ + " ("@
        + signed_decimal_text(p.score as int) + "点): "@
}

/// The hand, ending the line, then a line with the discards if there are any.
pub open spec fn player_rest(p: Player) -> Seq<char> {
    join_words(hand_words(p.hand.loose(), p.hand.melds_view())) + "\n"@
        + if p.discards@.len() > 0 { "  河: "@ + join_words(tile_words(p.discards@)) + "\n"@ } else { Seq::empty() }
}

/// The state text for one player.
pub open spec fn player_text(p: Player, current: bool) -> Seq<char> {
    player_head(p, current) + player_rest(p)
}

/// The state text of the seats below `n`.
pub open spec fn players_text(g: Game, n: int) -> Seq<char>
    decreases n,
{
    if n <= 0 { Seq::empty() } else { players_text(g, n - 1) + player_text(g.players@[n - 1], g.current_player == n - 1) }
}

/// The whole state text: round and wall size, dora indicators, each seat, the last discard.
pub open spec fn game_state_text(g: Game) -> Seq<char> {
    "Round: "@ + decimal_text(g.round as nat) + " | Wall: "@ + decimal_text(g.wall@.len()) + " tiles\n"@
        + "Dora indicators: "@ + join_words(tile_words(g.dora_indicators@)) + "\n"@
        + players_text(g, 4)
        + match g.last_discard {
            Some(t) => "Last discard: "@ + crate::tile::tile_text(t) + "\n"@,
            None => Seq::empty(),
        }
}

/// The state of one deal: four players, the wall, dora indicators, whose turn it is.
#[derive(Debug)]
pub struct Game {
    pub players: Vec<Player>,
    pub wall: Vec<Tile>,
    pub dora_indicators: Vec<Tile>,
    pub current_player: usize,
    pub round: u32,
    pub dealer: usize,
    pub last_discard: Option<Tile>,
}

/// Only seat `idx`'s hand may differ between the two games' players.
pub open spec fn others_same(a: Game, b: Game, idx: int) -> bool {
    &&& a.players@.len() == b.players@.len()
    &&& forall|i: int| 0 <= i < a.players@.len() && i != idx ==> #[trigger] a.players@[i] == b.players@[i]
    &&& same_except_hand(a.players@[idx], b.players@[idx])
}

/// The claimer's declared melds grew by one meld of `kind`, with these tiles and this openness.
pub open spec fn meld_added(a: Game, b: Game, idx: int, kind: MeldType, tiles: Seq<Tile>, open: bool) -> bool {
    let ma = a.players@[idx].hand.melds_view();
    let mb = b.players@[idx].hand.melds_view();
    &&& ma.len() == mb.len() + 1
    &&& ma.drop_last() == mb
    &&& ma.last().meld_type == kind
    &&& ma.last().tiles@ == tiles
    &&& ma.last().is_open == open
}

/// How many copies of `t` a full set holds: four of each kind, one of the four fives of
/// each suit being the bonus variant.
pub open spec fn full_set_count(t: Tile) -> int {
    match t.tile_type {
        TileType::Number { value, .. } =>
            if !(1 <= value <= 9) { 0 }
            else if value == 5 { if t.is_red { 1 } else { 3 } }
            else if t.is_red { 0 } else { 4 },
        TileType::Honor(_) => if t.is_red { 0 } else { 4 },
    }
}

/// Copies of number tile `t` among the first ones placed in the wall: whole suits below
/// `s`, whole ranks below `v` in suit `s`, and `c` copies of rank `v` (the first copy of
/// each five being the bonus variant).
pub open spec fn numbers_placed(t: Tile, s: int, v: int, c: int) -> int {
    match t.tile_type {
        TileType::Number { suit, value } => {
            let ts = crate::tile::suit_index(suit);
            let tv = value as int;
            let n = if ts < s { 4 } else if ts > s { 0 } else if tv < v { 4 } else if tv > v { 0 } else { c };
            if !(1 <= tv <= 9) { 0 }
            else if tv == 5 { if t.is_red { if n >= 1 { 1int } else { 0int } } else { if n >= 1 { n - 1 } else { 0 } } }
            else if t.is_red { 0 } else { n }
        },
        TileType::Honor(_) => 0,
    }
}

/// Copies of honor tile `t` among the honors placed: whole honors below `h`, and `c`
/// copies of honor `h`.
pub open spec fn honors_placed(t: Tile, h: int, c: int) -> int {
    match t.tile_type {
        TileType::Honor(x) => {
            let i = crate::tile::honor_index(x);
            if t.is_red { 0 } else if i < h { 4 } else if i > h { 0 } else { c }
        },
        TileType::Number { .. } => 0,
    }
}

/// Every tile of the game: wall, dora indicators and the four hands' loose tiles.
pub open spec fn all_tiles(g: Game) -> Multiset<Tile> {
    g.wall@.to_multiset().add(g.dora_indicators@.to_multiset())
        .add(g.players@[0].hand.loose().to_multiset()).add(g.players@[1].hand.loose().to_multiset())
        .add(g.players@[2].hand.loose().to_multiset()).add(g.players@[3].hand.loose().to_multiset())
}

/// Seat `i` is not the current one and `t` would complete its hand.
pub open spec fn seat_can_win(g: Game, i: int, t: Tile) -> bool {
    &&& i != g.current_player
    &&& hand_size(g.players@[i].hand.loose(), g.players@[i].hand.melds_view()) == 13
    &&& is_complete_spec(g.players@[i].hand.loose().push(t), g.players@[i].hand.melds_view())
}

/// Seats below `n` that could win on `t`, in seat order.
pub open spec fn winning_seats(g: Game, t: Tile, n: int) -> Seq<usize>
    decreases n,
{
    if n <= 0 {
        Seq::empty()
    } else {
        winning_seats(g, t, n - 1) + if seat_can_win(g, n - 1, t) { seq![(n - 1) as usize] } else { Seq::empty() }
    }
}

proof fn lemma_meld_subset_chi(loose: Seq<Tile>, a: Tile, t: Tile, b: Tile)
    requires
        loose.contains(a),
        loose.contains(b),
        a != b,
        a != t,
        b != t,
    ensures
        seq![a, t, b].to_multiset().subset_of(loose.to_multiset().insert(t)),
{
    assert(seq![a, t, b] =~= Seq::<Tile>::empty().push(a).push(t).push(b));
    assert(Seq::<Tile>::empty().to_multiset() =~= Multiset::empty());
    assert(loose.to_multiset().count(a) > 0);
    assert(loose.to_multiset().count(b) > 0);
}

proof fn lemma_meld_subset_same(loose: Seq<Tile>, t: Tile, n: int, m: Seq<Tile>)
    requires
        m.len() == n,
        1 <= n <= 4,
        forall|i: int| 0 <= i < n ==> m[i] == t,
        loose.to_multiset().count(t) >= n - 1,
    ensures
        m.to_multiset().subset_of(loose.to_multiset().insert(t)),
{
    assert(m.to_multiset().count(t) == n) by {
        lemma_count_same(m, t);
    }
    assert forall|x: Tile| m.to_multiset().count(x) <= loose.to_multiset().insert(t).count(x) by {
        if x != t {
            assert(!m.contains(x));
        }
    }
}

proof fn lemma_count_same(m: Seq<Tile>, t: Tile)
    requires
        forall|i: int| 0 <= i < m.len() ==> m[i] == t,
    ensures
        m.to_multiset().count(t) == m.len(),
    decreases m.len(),
{
    if m.len() == 0 {
        assert(m.to_multiset() =~= Multiset::empty());
    } else {
        let p = m.drop_last();
        lemma_count_same(p, t);
        assert(m =~= p.push(t));
    }
}

/// Some tile of `s` has kind `k`.
pub open spec fn has_kind(s: Seq<Tile>, k: int) -> bool {
    exists|i: int| 0 <= i < s.len() && #[trigger] kind_of(s[i]) == k
}

/// After a quad: with the wall `w` of `b`, its last tile became a dora indicator and the
/// one before it went into seat `idx`'s hand, whose loose tiles were `hand` before; as
/// far as the wall went.
pub open spec fn replacement_done(a: Game, b: Game, idx: int, hand: Multiset<Tile>) -> bool {
    let w = b.wall@;
    let n = w.len();
    let got = a.players@[idx].hand.loose().to_multiset();
    &&& n == 0 ==> a.wall@ == w && a.dora_indicators@ == b.dora_indicators@ && got == hand
    &&& n == 1 ==> a.wall@ == w.drop_last() && a.dora_indicators@ == b.dora_indicators@.push(w[0]) && got == hand
    &&& n >= 2 ==> a.wall@ == w.subrange(0, n - 2) && a.dora_indicators@ == b.dora_indicators@.push(w[n - 1])
        && got == hand.insert(w[n - 2])
}

/// Moving the wall's last tile into seat `p`'s hand keeps every tile of the game.
proof fn lemma_deal_one(a: Game, b: Game, p: int, t: Tile)
    requires
        a.players@.len() == 4,
        b.players@.len() == 4,
        0 <= p < 4,
        a.wall@.len() > 0,
        t == a.wall@.last(),
        b.wall@ == a.wall@.drop_last(),
        b.dora_indicators == a.dora_indicators,
        b.players@[p].hand.loose().to_multiset() == a.players@[p].hand.loose().to_multiset().insert(t),
        forall|i: int| 0 <= i < 4 && i != p ==> #[trigger] b.players@[i] == a.players@[i],
    ensures
        all_tiles(b) == all_tiles(a),
{
    assert(a.wall@ =~= b.wall@.push(t));
    assert(a.wall@.to_multiset() == b.wall@.to_multiset().insert(t));
    if p == 0 {
        assert(all_tiles(b) =~= all_tiles(a));
    } else if p == 1 {
        assert(all_tiles(b) =~= all_tiles(a));
    } else if p == 2 {
        assert(all_tiles(b) =~= all_tiles(a));
    } else {
        assert(all_tiles(b) =~= all_tiles(a));
    }
}

proof fn lemma_has_kind_push(s: Seq<Tile>, t: Tile, j: int)
    ensures
        has_kind(s.push(t), j) == (has_kind(s, j) || kind_of(t) == j),
{
    if has_kind(s.push(t), j) {
        let x = choose|x: int| 0 <= x < s.push(t).len() && #[trigger] kind_of(s.push(t)[x]) == j;
        if x < s.len() { assert(s.push(t)[x] == s[x]); }
    }
    if has_kind(s, j) {
        let x = choose|x: int| 0 <= x < s.len() && #[trigger] kind_of(s[x]) == j;
        assert(kind_of(s.push(t)[x]) == j);
    }
    if kind_of(t) == j {
        assert(kind_of(s.push(t)[s.len() as int]) == j);
    }
}

proof fn lemma_count_kind_has(s: Seq<Tile>, k: int)
    requires
        count_kind(s, k) > 0,
    ensures
        has_kind(s, k),
    decreases s.len(),
{
    if kind_of(s.last()) == k {
        assert(kind_of(s[s.len() - 1]) == k);
    } else {
        lemma_count_kind_has(s.drop_last(), k);
        let i = choose|i: int| 0 <= i < s.drop_last().len() && #[trigger] kind_of(s.drop_last()[i]) == k;
        assert(kind_of(s[i]) == k);
    }
}

proof fn lemma_prefix_subset(s: Seq<Tile>, n: int)
    requires
        0 <= n <= s.len(),
    ensures
        s.subrange(0, n).to_multiset().subset_of(s.to_multiset()),
    decreases s.len() - n,
{
    if n < s.len() {
        lemma_prefix_subset(s, n + 1);
        assert(s.subrange(0, n + 1) =~= s.subrange(0, n).push(s[n]));
    } else {
        assert(s.subrange(0, n) =~= s);
    }
}

proof fn lemma_chi_taken(loose: Seq<Tile>, a: Tile, t: Tile, b: Tile)
    requires
        loose.contains(a),
        loose.contains(b),
        a != b,
        a != t,
        b != t,
    ensures
        loose.to_multiset().insert(t).sub(seq![a, t, b].to_multiset()) == loose.to_multiset().remove(a).remove(b),
{
    assert(seq![a, t, b] =~= Seq::<Tile>::empty().push(a).push(t).push(b));
    assert(Seq::<Tile>::empty().to_multiset() =~= Multiset::empty());
    assert(loose.to_multiset().count(a) > 0);
    assert(loose.to_multiset().count(b) > 0);
    assert(loose.to_multiset().insert(t).sub(seq![a, t, b].to_multiset()) =~= loose.to_multiset().remove(a).remove(b));
}

proof fn lemma_same_taken(loose: Seq<Tile>, t: Tile, m: Seq<Tile>)
    requires
        forall|i: int| 0 <= i < m.len() ==> m[i] == t,
    ensures
        forall|x: Tile| #[trigger] m.to_multiset().count(x) == if x == t { m.len() } else { 0 },
{
    lemma_count_same(m, t);
    assert forall|x: Tile| #[trigger] m.to_multiset().count(x) == if x == t { m.len() } else { 0 } by {
        if x != t {
            assert(!m.contains(x));
        }
    }
}

fn has_kind_exec(v: &Vec<Tile>, k: usize) -> (r: bool)
    requires
        all_valid(v@),
    ensures
        r == has_kind(v@, k as int),
{
    let mut i: usize = 0;
    while i < v.len()
        invariant
            i <= v@.len(),
            all_valid(v@),
            forall|j: int| 0 <= j < i ==> kind_of(#[trigger] v@[j]) != k,
        decreases v@.len() - i,
    {
        assert(tile_valid(v@[i as int]));
        if v[i].kind_index() == k {
            return true;
        }
        i += 1;
    }
    false
}

impl Game {
    pub open spec fn wf(&self) -> bool {
        &&& self.players@.len() == 4
        &&& forall|i: int| 0 <= i < 4 ==> (#[trigger] self.players@[i]).wf()
        &&& self.current_player < 4
        &&& self.dealer < 4
        &&& all_valid(self.wall@)
        &&& all_valid(self.dora_indicators@)
        &&& (self.last_discard matches Some(t) ==> tile_valid(t))
    }

    /// A new deal: seats in the order given, the first one dealing; the wall is shuffled,
    /// one dora indicator turned, fourteen tiles dealt to the dealer and thirteen to the others.
    pub fn new(player_names: Vec<String>) -> (r: Self)
        requires
            player_names@.len() == 4,
        ensures
            r.wf(),
            forall|i: int| 0 <= i < 4 ==> (#[trigger] r.players@[i]).name == player_names@[i] && r.players@[i].id == i,
            forall|i: int| 0 <= i < 4 ==> (#[trigger] r.players@[i]).is_dealer == (i == 0),
            r.players@[0].hand.loose().len() == 14,
            forall|i: int| 1 <= i < 4 ==> (#[trigger] r.players@[i]).hand.loose().len() == 13,
            forall|i: int| 0 <= i < 4 ==> (#[trigger] r.players@[i]).hand.melds_view().len() == 0,
            r.wall@.len() == 136 - 1 - 53,
            forall|t: Tile| #[trigger] all_tiles(r).count(t) == full_set_count(t),
            r.dora_indicators@.len() == 1,
            r.current_player == 0,
            r.dealer == 0,
            r.round == 1,
            r.last_discard is None,
    {
        let mut players: Vec<Player> = Vec::new();
        let mut names = player_names;
        let ghost orig = names@;
        let mut i: usize = 0;
        while i < 4
            invariant
                i <= 4,
                i == players@.len(),
                names@ == orig.subrange(i as int, 4),
                orig.len() == 4,
                forall|j: int| 0 <= j < i ==> (#[trigger] players@[j]).wf() && players@[j].name == orig[j]
                    && players@[j].id == j && players@[j].is_dealer == (j == 0)
                    && players@[j].hand.loose().len() == 0 && players@[j].hand.melds_view().len() == 0,
            decreases 4 - i,
        {
            let name = names.remove(0);
            assert(names@ =~= orig.subrange(i as int + 1, 4));
            let mut p = Player::new(i, name);
            if i == 0 {
                p.is_dealer = true;
            }
            players.push(p);
            i += 1;
        }
        let mut game = Game {
            players,
            wall: Vec::new(),
            dora_indicators: Vec::new(),
            current_player: 0,
            round: 1,
            dealer: 0,
            last_discard: None,
        };
        game.initialize_wall();
        proof {
            assert forall|i: int| 0 <= i < 4 implies (#[trigger] game.players@[i]).hand.loose().to_multiset() =~= Multiset::empty() by {
                assert(game.players@[i].hand.loose() =~= Seq::<Tile>::empty());
            }
            assert forall|t: Tile| #[trigger] all_tiles(game).count(t) == full_set_count(t) by {
                assert(game.players@[0].hand.loose().to_multiset() =~= Multiset::empty());
                assert(game.players@[1].hand.loose().to_multiset() =~= Multiset::empty());
                assert(game.players@[2].hand.loose().to_multiset() =~= Multiset::empty());
                assert(game.players@[3].hand.loose().to_multiset() =~= Multiset::empty());
                assert(game.wall@.to_multiset().add(game.dora_indicators@.to_multiset()).count(t) == full_set_count(t));
            }
        }
        game.deal_initial_tiles();
        game
    }

    /// Fills the wall with the full set (the first five of each suit is the bonus
    /// variant), shuffles it and turns one dora indicator.
    fn initialize_wall(&mut self)
        requires
            old(self).players@.len() == 4,
            old(self).dora_indicators@.len() == 0,
        ensures
            final(self).wall@.len() == 135,
            forall|t: Tile| #[trigger] final(self).wall@.to_multiset().add(final(self).dora_indicators@.to_multiset()).count(t)
                == full_set_count(t),
            all_valid(final(self).wall@),
            all_valid(final(self).dora_indicators@),
            final(self).dora_indicators@.len() == 1,
            final(self).players@ == old(self).players@,
            final(self).current_player == old(self).current_player,
            final(self).dealer == old(self).dealer,
            final(self).round == old(self).round,
            final(self).last_discard == old(self).last_discard,
    {
        self.wall.clear();
        let mut s: usize = 0;
        while s < 3
            invariant
                s <= 3,
                self.wall@.len() == 36 * s,
                forall|t: Tile| #[trigger] self.wall@.to_multiset().count(t) == numbers_placed(t, s as int, 1, 0),
                all_valid(self.wall@),
                self.players == old(self).players,
                self.dora_indicators == old(self).dora_indicators,
                self.current_player == old(self).current_player,
                self.dealer == old(self).dealer,
                self.round == old(self).round,
                self.last_discard == old(self).last_discard,
            decreases 3 - s,
        {
            let suit = if s == 0 { Suit::Man } else if s == 1 { Suit::Pin } else { Suit::Sou };
            let mut value: u8 = 1;
            while value <= 9
                invariant
                    1 <= value <= 10,
                    s < 3,
                    self.wall@.len() == 36 * s + 4 * (value - 1),
                    suit == if s == 0 { Suit::Man } else if s == 1 { Suit::Pin } else { Suit::Sou },
                    forall|t: Tile| #[trigger] self.wall@.to_multiset().count(t) == numbers_placed(t, s as int, value as int, 0),
                    all_valid(self.wall@),
                    self.players == old(self).players,
                    self.dora_indicators == old(self).dora_indicators,
                    self.current_player == old(self).current_player,
                    self.dealer == old(self).dealer,
                    self.round == old(self).round,
                    self.last_discard == old(self).last_discard,
                decreases 10 - value,
            {
                let mut copy: usize = 0;
                while copy < 4
                    invariant
                        copy <= 4,
                        1 <= value <= 9,
                        s < 3,
                        self.wall@.len() == 36 * s + 4 * (value - 1) + copy,
                        suit == if s == 0 { Suit::Man } else if s == 1 { Suit::Pin } else { Suit::Sou },
                        forall|t: Tile| #[trigger] self.wall@.to_multiset().count(t) == numbers_placed(t, s as int, value as int, copy as int),
                        all_valid(self.wall@),
                        self.players == old(self).players,
                        self.dora_indicators == old(self).dora_indicators,
                        self.current_player == old(self).current_player,
                        self.dealer == old(self).dealer,
                        self.round == old(self).round,
                        self.last_discard == old(self).last_discard,
                    decreases 4 - copy,
                {
                    let is_red = value == 5 && copy == 0;
                    let ghost wb = self.wall@;
                    let x = Tile::new_number(suit, value, is_red);
                    self.wall.push(x);
                    proof {
                        assert forall|t: Tile| #[trigger] self.wall@.to_multiset().count(t)
                            == numbers_placed(t, s as int, value as int, copy as int + 1) by {
                            assert(self.wall@.to_multiset().count(t) == wb.to_multiset().count(t) + if t == x { 1int } else { 0int });
                        }
                        let w = self.wall@;
                        assert forall|j: int| 0 <= j < w.len() implies tile_valid(#[trigger] w[j]) by {
                            if j < w.len() - 1 { assert(w[j] == w.drop_last()[j]); }
                        }
                    }
                    copy += 1;
                }
                value += 1;
            }
            s += 1;
        }
        let mut h: usize = 0;
        while h < 7
            invariant
                h <= 7,
                self.wall@.len() == 108 + 4 * h,
                forall|t: Tile| #[trigger] self.wall@.to_multiset().count(t) == numbers_placed(t, 3, 1, 0) + honors_placed(t, h as int, 0),
                all_valid(self.wall@),
                self.players == old(self).players,
                self.dora_indicators == old(self).dora_indicators,
                self.current_player == old(self).current_player,
                self.dealer == old(self).dealer,
                self.round == old(self).round,
                self.last_discard == old(self).last_discard,
            decreases 7 - h,
        {
            let honor = if h == 0 { Honor::Ton } else if h == 1 { Honor::Nan } else if h == 2 { Honor::Shaa }
                else if h == 3 { Honor::Pei } else if h == 4 { Honor::Haku } else if h == 5 { Honor::Hatsu } else { Honor::Chun };
            let mut copy: usize = 0;
            while copy < 4
                invariant
                    copy <= 4,
                    h < 7,
                    self.wall@.len() == 108 + 4 * h + copy,
                    crate::tile::honor_index(honor) == h as int,
                    forall|t: Tile| #[trigger] self.wall@.to_multiset().count(t) == numbers_placed(t, 3, 1, 0) + honors_placed(t, h as int, copy as int),
                    all_valid(self.wall@),
                    self.players == old(self).players,
                    self.dora_indicators == old(self).dora_indicators,
                    self.current_player == old(self).current_player,
                    self.dealer == old(self).dealer,
                    self.round == old(self).round,
                    self.last_discard == old(self).last_discard,
                decreases 4 - copy,
            {
                let ghost wb = self.wall@;
                let x = Tile::new_honor(honor);
                self.wall.push(x);
                proof {
                    assert forall|t: Tile| #[trigger] self.wall@.to_multiset().count(t)
                        == numbers_placed(t, 3, 1, 0) + honors_placed(t, h as int, copy as int + 1) by {
                        assert(self.wall@.to_multiset().count(t) == wb.to_multiset().count(t) + if t == x { 1int } else { 0int });
                    }
                    let w = self.wall@;
                    assert forall|j: int| 0 <= j < w.len() implies tile_valid(#[trigger] w[j]) by {
                        if j < w.len() - 1 { assert(w[j] == w.drop_last()[j]); }
                    }
                }
                copy += 1;
            }
            h += 1;
        }
        let ghost before = self.wall@;
        shuffle_tiles(&mut self.wall);
        proof {
            let w = self.wall@;
            assert forall|j: int| 0 <= j < w.len() implies tile_valid(#[trigger] w[j]) by {
                assert(w.contains(w[j]));
                assert(w.to_multiset().count(w[j]) > 0);
                assert(before.to_multiset().count(w[j]) > 0);
                assert(before.contains(w[j]));
            }
        }
        let ghost w0 = self.wall@;
        let d = self.wall.pop().unwrap();
        assert(tile_valid(w0[w0.len() - 1]));
        self.dora_indicators.push(d);
        proof {
            let w = self.wall@;
            assert forall|j: int| 0 <= j < w.len() implies tile_valid(#[trigger] w[j]) by {}
            assert(self.dora_indicators@ =~= seq![d]);
            assert(w0 =~= w.push(d));
            assert(seq![d] =~= Seq::<Tile>::empty().push(d));
            assert(Seq::<Tile>::empty().to_multiset() =~= Multiset::empty());
            assert forall|t: Tile| #[trigger] self.wall@.to_multiset().add(self.dora_indicators@.to_multiset()).count(t)
                == full_set_count(t) by {
                assert(before.to_multiset().count(t) == numbers_placed(t, 3, 1, 0) + honors_placed(t, 7, 0));
            }
        }
    }

    /// Deals four tiles to each seat three times, one more each, and a fourteenth to the dealer.
    fn deal_initial_tiles(&mut self)
        requires
            old(self).players@.len() == 4,
            old(self).wall@.len() == 135,
            all_valid(old(self).wall@),
            old(self).dealer == 0,
            forall|i: int| 0 <= i < 4 ==> (#[trigger] old(self).players@[i]).wf()
                && old(self).players@[i].hand.loose().len() == 0
                && old(self).players@[i].hand.melds_view().len() == 0,
        ensures
            final(self).wall@.len() == 135 - 53,
            all_tiles(*final(self)) == all_tiles(*old(self)),
            all_valid(final(self).wall@),
            final(self).players@.len() == 4,
            forall|i: int| 0 <= i < 4 ==> (#[trigger] final(self).players@[i]).wf()
                && final(self).players@[i].name == old(self).players@[i].name
                && final(self).players@[i].id == old(self).players@[i].id
                && final(self).players@[i].is_dealer == old(self).players@[i].is_dealer
                && final(self).players@[i].hand.melds_view().len() == 0,
            final(self).players@[0].hand.loose().len() == 14,
            forall|i: int| 1 <= i < 4 ==> (#[trigger] final(self).players@[i]).hand.loose().len() == 13,
            final(self).dora_indicators == old(self).dora_indicators,
            final(self).current_player == old(self).current_player,
            final(self).dealer == old(self).dealer,
            final(self).round == old(self).round,
            final(self).last_discard == old(self).last_discard,
    {
        let mut k: usize = 0;
        while k < 13
            invariant
                k <= 13,
                self.players@.len() == 4,
                self.wall@.len() == 135 - 4 * k,
                all_tiles(*self) == all_tiles(*old(self)),
                all_valid(self.wall@),
                self.dealer == 0,
                forall|i: int| 0 <= i < 4 ==> (#[trigger] self.players@[i]).wf()
                    && self.players@[i].name == old(self).players@[i].name
                    && self.players@[i].id == old(self).players@[i].id
                    && self.players@[i].is_dealer == old(self).players@[i].is_dealer
                    && self.players@[i].hand.melds_view().len() == 0
                    && self.players@[i].hand.loose().len() == k,
                self.dora_indicators == old(self).dora_indicators,
                self.current_player == old(self).current_player,
                self.round == old(self).round,
                self.last_discard == old(self).last_discard,
            decreases 13 - k,
        {
            let mut p: usize = 0;
            while p < 4
                invariant
                    k < 13,
                    p <= 4,
                    self.players@.len() == 4,
                    self.wall@.len() == 135 - 4 * k - p,
                    all_tiles(*self) == all_tiles(*old(self)),
                    all_valid(self.wall@),
                    self.dealer == 0,
                    forall|i: int| 0 <= i < 4 ==> (#[trigger] self.players@[i]).wf()
                        && self.players@[i].name == old(self).players@[i].name
                        && self.players@[i].id == old(self).players@[i].id
                        && self.players@[i].is_dealer == old(self).players@[i].is_dealer
                        && self.players@[i].hand.melds_view().len() == 0
                        && self.players@[i].hand.loose().len() == if i < p { k + 1 } else { k as int },
                    self.dora_indicators == old(self).dora_indicators,
                    self.current_player == old(self).current_player,
                    self.round == old(self).round,
                    self.last_discard == old(self).last_discard,
                decreases 4 - p,
            {
                let ghost w = self.wall@;
                let ghost g0 = *self;
                let t = self.wall.pop().unwrap();
                assert(tile_valid(w[w.len() - 1]));
                self.players[p].draw_tile(t);
                proof { lemma_deal_one(g0, *self, p as int, t); }
                p += 1;
            }
            k += 1;
        }
        let ghost w = self.wall@;
        let ghost g0 = *self;
        let t = self.wall.pop().unwrap();
        assert(tile_valid(w[w.len() - 1]));
        self.players[0].draw_tile(t);
        proof { lemma_deal_one(g0, *self, 0, t); }
    }

    /// Takes the last tile of the wall, if any.
    pub fn draw_tile(&mut self) -> (r: Option<Tile>)
        requires
            old(self).wf(),
        ensures
            final(self).wf(),
            old(self).wall@.len() == 0 ==> r is None && final(self).wall == old(self).wall,
            old(self).wall@.len() > 0 ==> r == Some(old(self).wall@.last())
                && final(self).wall@ == old(self).wall@.drop_last(),
            r matches Some(t) ==> tile_valid(t),
            final(self).players@ == old(self).players@,
            final(self).current_player == old(self).current_player,
            final(self).last_discard == old(self).last_discard,
            final(self).dora_indicators == old(self).dora_indicators,
    {
        if self.wall.len() == 0 {
            return None;
        }
        let r = self.wall.pop();
        proof {
            if old(self).wall@.len() > 0 {
                assert(tile_valid(old(self).wall@[old(self).wall@.len() - 1]));
            }
        }
        r
    }

    /// The current player draws from the wall; `false` when the wall is empty (or the
    /// hand already holds as many loose tiles as a full set has).
    pub fn current_player_draw(&mut self) -> (r: bool)
        requires
            old(self).wf(),
        ensures
            final(self).wf(),
            r == (old(self).wall@.len() > 0
                && old(self).players@[old(self).current_player as int].hand.loose().len() < MAX_LOOSE_TILES),
            r ==> final(self).wall@ == old(self).wall@.drop_last()
                && final(self).players@[old(self).current_player as int].hand.loose().to_multiset()
                    == old(self).players@[old(self).current_player as int].hand.loose().to_multiset().insert(old(self).wall@.last())
                && final(self).players@[old(self).current_player as int].hand.melds_view()
                    == old(self).players@[old(self).current_player as int].hand.melds_view()
                && others_same(*final(self), *old(self), old(self).current_player as int)
                && final(self).dora_indicators == old(self).dora_indicators
                && final(self).current_player == old(self).current_player
                && final(self).last_discard == old(self).last_discard
                && final(self).round == old(self).round
                && final(self).dealer == old(self).dealer,
            !r ==> *final(self) == *old(self),
    {
        let cur = self.current_player;
        if self.wall.len() == 0 || self.players[cur].hand.get_tiles().len() >= MAX_LOOSE_TILES {
            return false;
        }
        let ghost w = self.wall@;
        let tile = self.wall.pop().unwrap();
        assert(tile_valid(w[w.len() - 1]));
        self.players[cur].draw_tile(tile);
        true
    }

    /// The current player discards `tile`; on success it leaves the hand for the discard
    /// pile, becomes the last discard and the turn passes on. `false` (and no change) when
    /// the hand does not hold it.
    pub fn discard_tile(&mut self, tile: Tile) -> (r: bool)
        requires
            old(self).wf(),
        ensures
            final(self).wf(),
            r == old(self).players@[old(self).current_player as int].hand.loose().contains(tile),
            r ==> final(self).last_discard == Some(tile)
                && final(self).current_player == (old(self).current_player + 1) % 4
                && final(self).players@[old(self).current_player as int].hand.loose().to_multiset()
                    == old(self).players@[old(self).current_player as int].hand.loose().to_multiset().remove(tile)
                && final(self).players@[old(self).current_player as int].hand.melds_view()
                    == old(self).players@[old(self).current_player as int].hand.melds_view()
                && final(self).players@[old(self).current_player as int].discards@
                    == old(self).players@[old(self).current_player as int].discards@.push(tile)
                && (forall|i: int| 0 <= i < 4 && i != old(self).current_player ==> #[trigger] final(self).players@[i] == old(self).players@[i])
                && final(self).wall == old(self).wall
                && final(self).dora_indicators == old(self).dora_indicators
                && final(self).round == old(self).round
                && final(self).dealer == old(self).dealer,
            !r ==> *final(self) == *old(self),
    {
        let cur = self.current_player;
        if count_tile(self.players[cur].hand.get_tiles(), &tile) == 0 {
            return false;
        }
        let ok = self.players[cur].discard_tile(tile);
        assert(ok);
        proof {
            let p = self.players@[cur as int];
            p.hand.lemma_wf();
            old(self).players@[cur as int].hand.lemma_wf();
            let s = old(self).players@[cur as int].hand.loose();
            let i = choose|i: int| 0 <= i < s.len() && s[i] == tile;
            assert(tile_valid(s[i]));
        }
        self.last_discard = Some(tile);
        self.next_player();
        true
    }

    pub fn next_player(&mut self)
        requires
            old(self).wf(),
        ensures
            final(self).wf(),
            final(self).current_player == (old(self).current_player + 1) % 4,
            final(self).players == old(self).players,
            final(self).wall == old(self).wall,
            final(self).last_discard == old(self).last_discard,
            final(self).dora_indicators == old(self).dora_indicators,
            final(self).round == old(self).round,
            final(self).dealer == old(self).dealer,
    {
        self.current_player = (self.current_player + 1) % 4;
    }

    pub fn get_current_player(&self) -> (r: &Player)
        requires
            self.wf(),
        ensures
            *r == self.players@[self.current_player as int],
    {
        &self.players[self.current_player]
    }

    pub fn get_current_player_mut(&mut self) -> (r: &mut Player)
        requires
            old(self).wf(),
        ensures
            *r == old(self).players@[old(self).current_player as int],
            final(self).players@ == old(self).players@.update(old(self).current_player as int, *final(r)),
            final(self).wall == old(self).wall,
            final(self).current_player == old(self).current_player,
            final(self).last_discard == old(self).last_discard,
    {
        let cur = self.current_player;
        &mut self.players[cur]
    }

    /// Seats other than the current one whose hand `tile` would complete, in seat order.
    pub fn can_someone_win(&self, tile: &Tile) -> (r: Vec<usize>)
        requires
            self.wf(),
            tile_valid(*tile),
        ensures
            r@ == winning_seats(*self, *tile, 4),
    {
        let mut winners: Vec<usize> = Vec::new();
        let mut i: usize = 0;
        while i < 4
            invariant
                i <= 4,
                self.wf(),
                tile_valid(*tile),
                winners@ == winning_seats(*self, *tile, i as int),
            decreases 4 - i,
        {
            let ok = i != self.current_player && self.players[i].tile_count() == 13 && self.players[i].can_win(tile);
            assert(ok == seat_can_win(*self, i as int, *tile));
            if ok {
                winners.push(i);
            }
            assert(winners@ =~= winning_seats(*self, *tile, i as int + 1));
            i += 1;
        }
        winners
    }

    /// Whether seat `player_idx` may claim the last discard for a run: it must be the
    /// seat after the discarder and hold two tiles that complete a run with it.
    pub fn can_chi(&self, player_idx: usize) -> (r: bool)
        requires
            self.wf(),
            player_idx < 4,
        ensures
            r == (self.last_discard is Some && player_idx == (self.current_player + 3) % 4
                && exists|pattern: int| 0 <= pattern < 3
                    && #[trigger] chi_available(self.players@[player_idx as int].hand.loose(), self.last_discard->0, pattern)),
    {
        if self.last_discard.is_none() {
            return false;
        }
        let prev_player = (self.current_player + 3) % 4;
        if player_idx != prev_player {
            return false;
        }
        let tile = self.last_discard.unwrap();
        let ghost loose = self.players@[player_idx as int].hand.loose();
        let mut pattern: usize = 0;
        while pattern < 3
            invariant
                pattern <= 3,
                self.wf(),
                player_idx < 4,
                loose == self.players@[player_idx as int].hand.loose(),
                self.last_discard == Some(tile),
                player_idx == (self.current_player + 3) % 4,
                forall|q: int| 0 <= q < pattern ==> !#[trigger] chi_available(loose, tile, q),
            decreases 3 - pattern,
        {
            if self.chi_pattern_ok(player_idx, tile, pattern) {
                assert(chi_available(self.players@[player_idx as int].hand.loose(), self.last_discard->0, pattern as int));
                return true;
            }
            pattern += 1;
        }
        false
    }

    fn chi_partners_exec(tile: Tile, pattern: usize) -> (r: Option<(Tile, Tile)>)
        requires
            tile_valid(tile),
        ensures
            r == chi_partners(tile, pattern as int),
            r matches Some(ab) ==> tile_valid(ab.0) && tile_valid(ab.1),
    {
        match tile.tile_type {
            TileType::Number { suit, value } => {
                if pattern == 0 && value >= 3 {
                    Some((Tile::new_number(suit, value - 2, false), Tile::new_number(suit, value - 1, false)))
                } else if pattern == 1 && 2 <= value && value <= 8 {
                    Some((Tile::new_number(suit, value - 1, false), Tile::new_number(suit, value + 1, false)))
                } else if pattern == 2 && value <= 7 {
                    Some((Tile::new_number(suit, value + 1, false), Tile::new_number(suit, value + 2, false)))
                } else {
                    None
                }
            },
            TileType::Honor(_) => None,
        }
    }

    fn chi_pattern_ok(&self, player_idx: usize, tile: Tile, pattern: usize) -> (r: bool)
        requires
            self.wf(),
            player_idx < 4,
            tile_valid(tile),
        ensures
            r == chi_available(self.players@[player_idx as int].hand.loose(), tile, pattern as int),
    {
        match Self::chi_partners_exec(tile, pattern) {
            Some(ab) => {
                let tiles = self.players[player_idx].hand.get_tiles();
                count_tile(tiles, &ab.0) > 0 && count_tile(tiles, &ab.1) > 0
            },
            None => false,
        }
    }

    /// Whether seat `player_idx` (not the discarder) holds two tiles equal to the last discard.
    pub fn can_pon(&self, player_idx: usize) -> (r: bool)
        requires
            self.wf(),
            player_idx < 4,
        ensures
            r == (self.last_discard is Some && player_idx != self.current_player
                && self.players@[player_idx as int].hand.loose().to_multiset().count(self.last_discard->0) >= 2),
    {
        if self.last_discard.is_none() || player_idx == self.current_player {
            return false;
        }
        let tile = self.last_discard.unwrap();
        count_tile(self.players[player_idx].hand.get_tiles(), &tile) >= 2
    }

    /// Whether seat `player_idx` (not the discarder) holds three tiles equal to the last discard.
    pub fn can_kan(&self, player_idx: usize) -> (r: bool)
        requires
            self.wf(),
            player_idx < 4,
        ensures
            r == (self.last_discard is Some && player_idx != self.current_player
                && self.players@[player_idx as int].hand.loose().to_multiset().count(self.last_discard->0) >= 3),
    {
        if self.last_discard.is_none() || player_idx == self.current_player {
            return false;
        }
        let tile = self.last_discard.unwrap();
        count_tile(self.players[player_idx].hand.get_tiles(), &tile) >= 3
    }

    /// One tile for each kind seat `player_idx` holds four or more of (the bonus mark does
    /// not matter): the first tile of that kind in hand order.
    pub fn can_ankan(&self, player_idx: usize) -> (r: Vec<Tile>)
        requires
            self.wf(),
            player_idx < 4,
        ensures
            forall|k: int| 0 <= k < 34 ==> (has_kind(r@, k) <==> count_kind(self.players@[player_idx as int].hand.loose(), k) >= 4),
            forall|i: int, j: int| 0 <= i < j < r@.len() ==> kind_of(#[trigger] r@[i]) != kind_of(#[trigger] r@[j]),
            forall|i: int| 0 <= i < r@.len() ==> self.players@[player_idx as int].hand.loose().contains(#[trigger] r@[i]),
    {
        let tiles = self.players[player_idx].hand.get_tiles();
        proof { self.players@[player_idx as int].hand.lemma_wf(); }
        let c = create_tile_map(tiles);
        let ghost s = tiles@;
        let mut out: Vec<Tile> = Vec::new();
        let mut i: usize = 0;
        while i < tiles.len()
            invariant
                i <= s.len(),
                s == tiles@,
                crate::counts::all_valid(s),
                c@.len() == 34,
                counts_view(c@) == kind_counts(s),
                forall|k: int| 0 <= k < 34 ==> (has_kind(out@, k) <==> (has_kind(s.subrange(0, i as int), k) && count_kind(s, k) >= 4)),
                forall|a: int, b: int| 0 <= a < b < out@.len() ==> kind_of(#[trigger] out@[a]) != kind_of(#[trigger] out@[b]),
                forall|a: int| 0 <= a < out@.len() ==> s.contains(#[trigger] out@[a]),
                all_valid(out@),
            decreases s.len() - i,
        {
            let t = tiles[i];
            assert(tile_valid(s[i as int]));
            let k = t.kind_index();
            let ghost pre = s.subrange(0, i as int);
            assert(s.subrange(0, i as int + 1) =~= pre.push(t));
            assert(counts_view(c@)[k as int] == count_kind(s, k as int));
            let ghost o = out@;
            let take = c[k] >= 4 && !has_kind_exec(&out, k);
            if take {
                out.push(t);
                proof {
                    assert(s.contains(s[i as int]));
                    assert(out@ =~= o.push(t));
                    assert forall|j: int| 0 <= j < 34 implies has_kind(out@, j) == (has_kind(o, j) || kind_of(t) == j) by {
                        lemma_has_kind_push(o, t, j);
                    }
                    assert forall|a: int, b: int| 0 <= a < b < out@.len() implies kind_of(#[trigger] out@[a]) != kind_of(#[trigger] out@[b]) by {
                        if b == o.len() {
                            assert(out@[a] == o[a]);
                        } else {
                            assert(out@[a] == o[a] && out@[b] == o[b]);
                        }
                    }
                    assert forall|a: int| 0 <= a < out@.len() implies s.contains(#[trigger] out@[a]) by {
                        if a < o.len() { assert(out@[a] == o[a]); }
                    }
                    assert forall|a: int| 0 <= a < out@.len() implies tile_valid(#[trigger] out@[a]) by {
                        if a < o.len() { assert(out@[a] == o[a]); }
                    }
                }
            }
            proof {
                assert forall|j: int| 0 <= j < 34 implies (has_kind(out@, j) <==> (has_kind(s.subrange(0, i as int + 1), j) && count_kind(s, j) >= 4)) by {
                    assert(has_kind(o, j) <==> (has_kind(pre, j) && count_kind(s, j) >= 4));
                    lemma_has_kind_push(pre, t, j);
                    if take {
                        assert(has_kind(out@, j) == (has_kind(o, j) || kind_of(t) == j));
                    }
                    if !take {
                        assert(out@ == o);
                        if j == k as int && count_kind(s, j) >= 4 {
                            assert(has_kind(o, j));
                        }
                    }
                }
            }
            i += 1;
        }
        proof {
            assert(s.subrange(0, s.len() as int) =~= s);
            assert forall|k: int| 0 <= k < 34 && count_kind(s, k) >= 4 implies has_kind(s, k) by {
                lemma_count_kind_has(s, k);
            }
        }
        out
    }

    /// Claims the last discard for a run with hand tiles chosen by `pattern` (see
    /// `chi_partners`): the open run of the two partners and the discard is declared, the
    /// partners leave the hand, the discard is used up and the turn moves to the claimer.
    /// Otherwise nothing changes.
    pub fn do_chi(&mut self, player_idx: usize, pattern: usize) -> (r: bool)
        requires
            old(self).wf(),
            player_idx < 4,
        ensures
            final(self).wf(),
            r == (old(self).last_discard is Some && player_idx == (old(self).current_player + 3) % 4
                && chi_available(old(self).players@[player_idx as int].hand.loose(), old(self).last_discard->0, pattern as int)
                && old(self).players@[player_idx as int].hand.melds_view().len() < 4
                && old(self).players@[player_idx as int].hand.loose().len() < MAX_LOOSE_TILES),
            r ==> ({
                let d = old(self).last_discard->0;
                let ab = chi_partners(d, pattern as int)->0;
                &&& meld_added(*final(self), *old(self), player_idx as int, MeldType::Chi, seq![ab.0, d, ab.1], true)
                &&& final(self).players@[player_idx as int].hand.loose().to_multiset()
                    == old(self).players@[player_idx as int].hand.loose().to_multiset().remove(ab.0).remove(ab.1)
                &&& others_same(*final(self), *old(self), player_idx as int)
                &&& final(self).last_discard is None
                &&& final(self).current_player == player_idx
                &&& final(self).wall == old(self).wall
                &&& final(self).dora_indicators == old(self).dora_indicators
                &&& final(self).round == old(self).round
                &&& final(self).dealer == old(self).dealer
            }),
            !r ==> *final(self) == *old(self),
    {
        if self.last_discard.is_none() {
            return false;
        }
        let tile = self.last_discard.unwrap();
        if player_idx != (self.current_player + 3) % 4 {
            return false;
        }
        if !self.chi_pattern_ok(player_idx, tile, pattern) {
            return false;
        }
        if self.players[player_idx].hand.get_melds().len() >= 4
            || self.players[player_idx].hand.get_tiles().len() >= MAX_LOOSE_TILES {
            return false;
        }
        let ab = Self::chi_partners_exec(tile, pattern).unwrap();
        let (a, b) = ab;
        let ghost loose = self.players@[player_idx as int].hand.loose();
        self.players[player_idx].hand.add_tile(tile);
        let meld = Meld { meld_type: MeldType::Chi, tiles: vec![a, tile, b], is_open: true };
        proof {
            assert(meld.tiles@ =~= seq![a, tile, b]);
            assert(a != b && a != tile && b != tile) by {
                assert(kind_of(a) != kind_of(b));
                assert(kind_of(a) != kind_of(tile));
                assert(kind_of(b) != kind_of(tile));
            }
            lemma_meld_subset_chi(loose, a, tile, b);
            assert(all_valid(meld.tiles@)) by {
                assert forall|i: int| 0 <= i < 3 implies tile_valid(#[trigger] meld.tiles@[i]) by {}
            }
        }
        let ghost mt = meld.tiles@;
        let ghost mb = self.players@[player_idx as int].hand.melds_view();
        let ok = self.players[player_idx].hand.add_meld(meld);
        assert(ok);
        assert(self.players@[player_idx as int].hand.melds_view().drop_last() =~= mb);
        proof {
            lemma_chi_taken(loose, a, tile, b);
        }
        self.last_discard = None;
        self.current_player = player_idx;
        true
    }

    /// Claims the last discard for an open triplet: two copies leave the hand, the
    /// discard is used up and the turn moves to the claimer. Otherwise nothing changes.
    pub fn do_pon(&mut self, player_idx: usize) -> (r: bool)
        requires
            old(self).wf(),
            player_idx < 4,
        ensures
            final(self).wf(),
            r == (old(self).last_discard is Some && player_idx != old(self).current_player
                && old(self).players@[player_idx as int].hand.loose().to_multiset().count(old(self).last_discard->0) >= 2
                && old(self).players@[player_idx as int].hand.melds_view().len() < 4
                && old(self).players@[player_idx as int].hand.loose().len() < MAX_LOOSE_TILES),
            r ==> ({
                let d = old(self).last_discard->0;
                &&& meld_added(*final(self), *old(self), player_idx as int, MeldType::Pon, seq![d, d, d], true)
                &&& final(self).players@[player_idx as int].hand.loose().to_multiset()
                    == old(self).players@[player_idx as int].hand.loose().to_multiset().remove(d).remove(d)
                &&& others_same(*final(self), *old(self), player_idx as int)
                &&& final(self).last_discard is None
                &&& final(self).current_player == player_idx
                &&& final(self).wall == old(self).wall
                &&& final(self).dora_indicators == old(self).dora_indicators
                &&& final(self).round == old(self).round
                &&& final(self).dealer == old(self).dealer
            }),
            !r ==> *final(self) == *old(self),
    {
        if !self.can_pon(player_idx) {
            return false;
        }
        if self.players[player_idx].hand.get_melds().len() >= 4
            || self.players[player_idx].hand.get_tiles().len() >= MAX_LOOSE_TILES {
            return false;
        }
        let tile = self.last_discard.unwrap();
        let ghost loose = self.players@[player_idx as int].hand.loose();
        self.players[player_idx].hand.add_tile(tile);
        let meld = Meld { meld_type: MeldType::Pon, tiles: vec![tile, tile, tile], is_open: true };
        proof {
            assert(meld.tiles@ =~= seq![tile, tile, tile]);
            lemma_meld_subset_same(loose, tile, 3, meld.tiles@);
            assert(all_valid(meld.tiles@)) by {
                assert forall|i: int| 0 <= i < 3 implies tile_valid(#[trigger] meld.tiles@[i]) by {}
            }
        }
        let ghost mb = self.players@[player_idx as int].hand.melds_view();
        let ok = self.players[player_idx].hand.add_meld(meld);
        assert(ok);
        assert(self.players@[player_idx as int].hand.melds_view().drop_last() =~= mb);
        proof {
            lemma_same_taken(loose, tile, seq![tile, tile, tile]);
            assert(loose.to_multiset().insert(tile).sub(seq![tile, tile, tile].to_multiset())
                =~= loose.to_multiset().remove(tile).remove(tile));
        }
        self.last_discard = None;
        self.current_player = player_idx;
        true
    }

    /// Turns the wall's last tile into a new dora indicator, then draws the next one into
    /// seat `player_idx`'s hand, as far as the wall goes.
    fn after_quad(&mut self, player_idx: usize)
        requires
            old(self).wf(),
            player_idx < 4,
            old(self).players@[player_idx as int].hand.loose().len() < MAX_LOOSE_TILES,
        ensures
            final(self).wf(),
            replacement_done(*final(self), *old(self), player_idx as int,
                old(self).players@[player_idx as int].hand.loose().to_multiset()),
            final(self).players@[player_idx as int].hand.melds_view() == old(self).players@[player_idx as int].hand.melds_view(),
            others_same(*final(self), *old(self), player_idx as int),
            final(self).current_player == old(self).current_player,
            final(self).last_discard == old(self).last_discard,
            final(self).round == old(self).round,
            final(self).dealer == old(self).dealer,
    {
        if self.wall.len() == 0 {
            return;
        }
        let ghost w = self.wall@;
        let d = self.wall.pop().unwrap();
        assert(tile_valid(w[w.len() - 1]));
        self.dora_indicators.push(d);
        proof {
            let s = self.dora_indicators@;
            assert forall|j: int| 0 <= j < s.len() implies tile_valid(#[trigger] s[j]) by {
                if j < s.len() - 1 { assert(s[j] == old(self).dora_indicators@[j]); }
            }
        }
        if self.wall.len() == 0 {
            return;
        }
        let t = self.wall.pop().unwrap();
        assert(tile_valid(w[w.len() - 2]));
        assert(self.wall@ =~= w.subrange(0, w.len() - 2));
        self.players[player_idx].draw_tile(t);
    }

    /// Claims the last discard for an open quad: three copies leave the hand, a dora
    /// indicator is turned and a replacement tile drawn from the wall (see
    /// `replacement_done`); the turn moves to the claimer. Otherwise nothing changes.
    pub fn do_kan(&mut self, player_idx: usize) -> (r: bool)
        requires
            old(self).wf(),
            player_idx < 4,
        ensures
            final(self).wf(),
            r == (old(self).last_discard is Some && player_idx != old(self).current_player
                && old(self).players@[player_idx as int].hand.loose().to_multiset().count(old(self).last_discard->0) >= 3
                && old(self).players@[player_idx as int].hand.melds_view().len() < 4
                && old(self).players@[player_idx as int].hand.loose().len() < MAX_LOOSE_TILES),
            r ==> ({
                let d = old(self).last_discard->0;
                &&& meld_added(*final(self), *old(self), player_idx as int, MeldType::Kan, seq![d, d, d, d], true)
                &&& replacement_done(*final(self), *old(self), player_idx as int,
                    old(self).players@[player_idx as int].hand.loose().to_multiset().remove(d).remove(d).remove(d))
                &&& others_same(*final(self), *old(self), player_idx as int)
                &&& final(self).last_discard is None
                &&& final(self).current_player == player_idx
                &&& final(self).round == old(self).round
                &&& final(self).dealer == old(self).dealer
            }),
            !r ==> *final(self) == *old(self),
    {
        if !self.can_kan(player_idx) {
            return false;
        }
        if self.players[player_idx].hand.get_melds().len() >= 4
            || self.players[player_idx].hand.get_tiles().len() >= MAX_LOOSE_TILES {
            return false;
        }
        let tile = self.last_discard.unwrap();
        let ghost loose = self.players@[player_idx as int].hand.loose();
        self.players[player_idx].hand.add_tile(tile);
        let meld = Meld { meld_type: MeldType::Kan, tiles: vec![tile, tile, tile, tile], is_open: true };
        proof {
            assert(meld.tiles@ =~= seq![tile, tile, tile, tile]);
            lemma_meld_subset_same(loose, tile, 4, meld.tiles@);
            assert(all_valid(meld.tiles@)) by {
                assert forall|i: int| 0 <= i < 4 implies tile_valid(#[trigger] meld.tiles@[i]) by {}
            }
        }
        let ghost mb = self.players@[player_idx as int].hand.melds_view();
        let ok = self.players[player_idx].hand.add_meld(meld);
        assert(ok);
        assert(self.players@[player_idx as int].hand.melds_view().drop_last() =~= mb);
        proof {
            lemma_same_taken(loose, tile, seq![tile, tile, tile, tile]);
            assert(loose.to_multiset().insert(tile).sub(seq![tile, tile, tile, tile].to_multiset())
                =~= loose.to_multiset().remove(tile).remove(tile).remove(tile));
            self.players@[player_idx as int].hand.lemma_wf();
            assert(self.players@[player_idx as int].hand.loose().len() < MAX_LOOSE_TILES) by {
                assert(self.players@[player_idx as int].hand.loose().len()
                    == self.players@[player_idx as int].hand.loose().to_multiset().len());
            }
        }
        self.last_discard = None;
        self.after_quad(player_idx);
        self.current_player = player_idx;
        true
    }

    /// Four loose tiles of `tile`'s kind from seat `player_idx`'s hand, the first four in
    /// hand order.
    fn quad_tiles(&self, player_idx: usize, tile: Tile) -> (r: Vec<Tile>)
        requires
            self.wf(),
            player_idx < 4,
            tile_valid(tile),
            count_kind(self.players@[player_idx as int].hand.loose(), kind_of(tile)) >= 4,
        ensures
            r@.len() == 4,
            forall|i: int| 0 <= i < 4 ==> kind_of(#[trigger] r@[i]) == kind_of(tile),
            r@.to_multiset().subset_of(self.players@[player_idx as int].hand.loose().to_multiset()),
    {
        let tiles = self.players[player_idx].hand.get_tiles();
        proof { self.players@[player_idx as int].hand.lemma_wf(); }
        let k = tile.kind_index();
        let ghost s = tiles@;
        let mut q: Vec<Tile> = Vec::new();
        let mut i: usize = 0;
        while i < tiles.len() && q.len() < 4
            invariant
                i <= s.len(),
                s == tiles@,
                all_valid(s),
                k as int == kind_of(tile),
                q@.len() <= 4,
                q@.len() == if count_kind(s.subrange(0, i as int), k as int) < 4 { count_kind(s.subrange(0, i as int), k as int) as int } else { 4 },
                forall|j: int| 0 <= j < q@.len() ==> kind_of(#[trigger] q@[j]) == kind_of(tile),
                q@.to_multiset().subset_of(s.subrange(0, i as int).to_multiset()),
            decreases s.len() - i,
        {
            let t = tiles[i];
            assert(tile_valid(s[i as int]));
            let ghost pre = s.subrange(0, i as int);
            assert(s.subrange(0, i as int + 1) =~= pre.push(t));
            proof { lemma_count_kind_push(pre, t, k as int); }
            let ghost qo = q@;
            if t.kind_index() == k {
                q.push(t);
                assert(q@.to_multiset() =~= qo.to_multiset().insert(t));
            }
            i += 1;
        }
        proof {
            if i == s.len() {
                assert(s.subrange(0, s.len() as int) =~= s);
            }
            lemma_prefix_subset(s, i as int);
        }
        q
    }

    /// Declares a concealed quad of `tile`'s kind (the bonus mark does not matter) from seat
    /// `player_idx`'s own tiles: four tiles of that kind leave the hand, a dora indicator is
    /// turned and a replacement tile drawn (see `replacement_done`). `false` (and no change)
    /// when four tiles of the kind are not there or four melds are already declared.
    pub fn do_ankan(&mut self, player_idx: usize, tile: Tile) -> (r: bool)
        requires
            old(self).wf(),
            player_idx < 4,
            tile_valid(tile),
        ensures
            final(self).wf(),
            r == (count_kind(old(self).players@[player_idx as int].hand.loose(), kind_of(tile)) >= 4
                && old(self).players@[player_idx as int].hand.melds_view().len() < 4),
            r ==> ({
                let m = final(self).players@[player_idx as int].hand.melds_view().last();
                &&& meld_added(*final(self), *old(self), player_idx as int, MeldType::Kan, m.tiles@, false)
                &&& m.tiles@.len() == 4
                &&& forall|i: int| 0 <= i < 4 ==> kind_of(#[trigger] m.tiles@[i]) == kind_of(tile)
                &&& m.tiles@.to_multiset().subset_of(old(self).players@[player_idx as int].hand.loose().to_multiset())
                &&& replacement_done(*final(self), *old(self), player_idx as int,
                    old(self).players@[player_idx as int].hand.loose().to_multiset().sub(m.tiles@.to_multiset()))
                &&& others_same(*final(self), *old(self), player_idx as int)
                &&& final(self).current_player == old(self).current_player
                &&& final(self).last_discard == old(self).last_discard
                &&& final(self).round == old(self).round
                &&& final(self).dealer == old(self).dealer
            }),
            !r ==> *final(self) == *old(self),
    {
        proof { self.players@[player_idx as int].hand.lemma_wf(); }
        let c = create_tile_map(self.players[player_idx].hand.get_tiles());
        let k = tile.kind_index();
        assert(counts_view(c@)[k as int] == count_kind(self.players@[player_idx as int].hand.loose(), k as int));
        if c[k] < 4 || self.players[player_idx].hand.get_melds().len() >= 4 {
            return false;
        }
        let q = self.quad_tiles(player_idx, tile);
        let ghost qs = q@;
        let ghost loose = self.players@[player_idx as int].hand.loose();
        proof {
            assert forall|i: int| 0 <= i < 4 implies tile_valid(#[trigger] qs[i]) by {
                assert(qs.to_multiset().count(qs[i]) > 0);
                assert(loose.to_multiset().count(qs[i]) > 0);
                assert(loose.contains(qs[i]));
            }
        }
        let meld = Meld { meld_type: MeldType::Kan, tiles: q, is_open: false };
        let ghost mb = self.players@[player_idx as int].hand.melds_view();
        let ok = self.players[player_idx].hand.add_meld(meld);
        assert(ok);
        assert(self.players@[player_idx as int].hand.melds_view().drop_last() =~= mb);
        self.after_quad(player_idx);
        true
    }

    /// The deal is over when the wall is empty or someone has no points left.
    pub fn is_game_over(&self) -> (r: bool)
        requires
            self.wf(),
        ensures
            r == (self.wall@.len() == 0 || exists|i: int| 0 <= i < 4 && #[trigger] self.players@[i].score <= 0),
    {
        if self.wall.len() == 0 {
            return true;
        }
        let mut i: usize = 0;
        while i < 4
            invariant
                i <= 4,
                self.wf(),
                forall|j: int| 0 <= j < i ==> #[trigger] self.players@[j].score > 0,
            decreases 4 - i,
        {
            if self.players[i].score <= 0 {
                return true;
            }
            i += 1;
        }
        false
    }

    pub fn get_wall_count(&self) -> (r: usize)
        ensures
            r == self.wall@.len(),
    {
        self.wall.len()
    }

    fn append_player_head(r: &mut String, p: &Player, current: bool)
        ensures
            final(r)@ == old(r)@ + player_head(*p, current),
    {
        r.append(if current { ">" } else { " " });
        r.append(if p.is_dealer { "親" } else { " " });
        r.append(" ");
        r.append(p.name.as_str());
        r.append(" (");
        append_signed_decimal(r, p.score as i64);
        r.append("点): ");
        assert(final(r)@ =~= old(r)@ + player_head(*p, current));
    }

    fn append_player_rest(r: &mut String, p: &Player)
        requires
            p.wf(),
        ensures
            final(r)@ == old(r)@ + player_rest(*p),
    {
        let hs = p.get_hand_string();
        r.append(hs.as_str());
        r.append("\n");
        let ghost mid = r@;
        if p.discards.len() > 0 {
            r.append("  河: ");
            let ds = p.get_discards_string();
            r.append(ds.as_str());
            r.append("\n");
            assert(r@ =~= mid + ("  河: "@ + join_words(tile_words(p.discards@)) + "\n"@));
        } else {
            assert(r@ =~= mid + Seq::<char>::empty());
        }
        assert(final(r)@ =~= old(r)@ + player_rest(*p));
    }

    fn append_player_text(r: &mut String, p: &Player, current: bool)
        requires
            p.wf(),
        ensures
            final(r)@ == old(r)@ + player_text(*p, current),
    {
        Self::append_player_head(r, p, current);
        Self::append_player_rest(r, p);
        assert(final(r)@ =~= old(r)@ + player_text(*p, current));
    }

    /// A text picture of the deal for display.
    pub fn get_game_state_string(&self) -> (r: String)
        requires
            self.wf(),
        ensures
            r@ == game_state_text(*self),
    {
        let mut r = String::from_str("Round: ");
        append_decimal(&mut r, self.round as u64);
        r.append(" | Wall: ");
        append_decimal(&mut r, self.wall.len() as u64);
        r.append(" tiles\n");
        r.append("Dora indicators: ");
        let d = tiles_to_text(&self.dora_indicators);
        r.append(d.as_str());
        r.append("\n");
        let ghost head = r@;
        let mut i: usize = 0;
        while i < 4
            invariant
                i <= 4,
                self.wf(),
                r@ == head + players_text(*self, i as int),
            decreases 4 - i,
        {
            Self::append_player_text(&mut r, &self.players[i], self.current_player == i);
            assert(r@ =~= head + players_text(*self, i as int + 1));
            i += 1;
        }
        if let Some(t) = self.last_discard {
            r.append("Last discard: ");
            let ts = t.to_string();
            r.append(ts.as_str());
            r.append("\n");
        }
        assert(r@ =~= game_state_text(*self));
        r
    }

    pub fn get_dora_indicators(&self) -> (r: &Vec<Tile>)
        ensures
            r@ == self.dora_indicators@,
    {
        &self.dora_indicators
    }
}

} // verus!
