use vstd::prelude::*;
use vstd::string::*;

verus! {

/// The three suits of number tiles.
#[derive(Debug, Clone, Copy, PartialEq, Eq, Hash, Structural)]
pub enum Suit {
    Man,
    Pin,
    Sou,
}

/// The seven honor tiles: four winds, then three dragons.
#[derive(Debug, Clone, Copy, PartialEq, Eq, Hash, Structural)]
pub enum Honor {
    Ton,
    Nan,
    Shaa,
    Pei,
    Haku,
    Hatsu,
    Chun,
}

#[derive(Debug, Clone, Copy, PartialEq, Eq, Hash, Structural)]
pub enum TileType {
    Number { suit: Suit, value: u8 },
    Honor(Honor),
}

/// One tile. `is_red` marks the bonus variant; it never changes the tile's kind.
#[derive(Debug, Clone, Copy, PartialEq, Eq, Hash, Structural)]
pub struct Tile {
    pub tile_type: TileType,
    pub is_red: bool,
}

/// Number of distinct tile kinds: 27 number kinds, then 7 honor kinds.
pub const NUM_KINDS: usize = 34;

pub open spec fn suit_index(s: Suit) -> int {
    match s {
        Suit::Man => 0,
        Suit::Pin => 1,
        Suit::Sou => 2,
    }
}

pub open spec fn honor_index(h: Honor) -> int {
    match h {
        Honor::Ton => 0,
        Honor::Nan => 1,
        Honor::Shaa => 2,
        Honor::Pei => 3,
        Honor::Haku => 4,
        Honor::Hatsu => 5,
        Honor::Chun => 6,
    }
}

/// The dense kind index of a tile: suit-major for number tiles (0..27), then honors (27..34).
/// This is also the canonical sort order of tiles.
pub open spec fn kind_of(t: Tile) -> int {
    match t.tile_type {
        TileType::Number { suit, value } => suit_index(suit) * 9 + value - 1,
        TileType::Honor(h) => 27 + honor_index(h),
    }
}

/// A kind index names a number tile.
pub open spec fn is_number_kind(k: int) -> bool {
    0 <= k < 27
}

/// Rank 1..9 of a number kind.
pub open spec fn rank_of_kind(k: int) -> int {
    k % 9 + 1
}

/// Terminal (rank 1 or 9) or honor kinds: the thirteen orphans.
pub open spec fn is_terminal_or_honor(k: int) -> bool {
    0 <= k < 34 && (k >= 27 || k % 9 == 0 || k % 9 == 8)
}

/// A tile that can be constructed: ranks 1..9, and the bonus mark only on number tiles.
pub open spec fn tile_valid(t: Tile) -> bool {
    match t.tile_type {
        TileType::Number { value, .. } => 1 <= value <= 9,
        TileType::Honor(_) => !t.is_red,
    }
}

pub open spec fn suit_char(s: Suit) -> char {
    match s {
        Suit::Man => 'm',
        Suit::Pin => 'p',
        Suit::Sou => 's',
    }
}

pub open spec fn honor_code(h: Honor) -> Seq<char> {
    match h {
        Honor::Ton => seq!['t', 'o'],
        Honor::Nan => seq!['n', 'a'],
        Honor::Shaa => seq!['s', 'a'],
        Honor::Pei => seq!['p', 'e'],
        Honor::Haku => seq!['h', 'k'],
        Honor::Hatsu => seq!['h', 't'],
        Honor::Chun => seq!['c', 'n'],
    }
}

pub open spec fn digit_char(v: int) -> char {
    if v == 1 { '1' }
    else if v == 2 { '2' }
    else if v == 3 { '3' }
    else if v == 4 { '4' }
    else if v == 5 { '5' }
    else if v == 6 { '6' }
    else if v == 7 { '7' }
    else if v == 8 { '8' }
    else { '9' }
}

/// The text form of a tile: `<rank><suit>` with an `r` suffix for the bonus variant,
/// or a two-letter honor code.
pub open spec fn tile_text(t: Tile) -> Seq<char> {
    match t.tile_type {
        TileType::Number { suit, value } =>
            if t.is_red {
                seq![digit_char(value as int), suit_char(suit), 'r']
            } else {
                seq![digit_char(value as int), suit_char(suit)]
            },
        TileType::Honor(h) => honor_code(h),
    }
}

pub open spec fn honor_of_code(s: Seq<char>) -> Option<Honor> {
    if s == seq!['t', 'o'] { Some(Honor::Ton) }
    else if s == seq!['n', 'a'] { Some(Honor::Nan) }
    else if s == seq!['s', 'a'] { Some(Honor::Shaa) }
    else if s == seq!['p', 'e'] { Some(Honor::Pei) }
    else if s == seq!['h', 'k'] { Some(Honor::Haku) }
    else if s == seq!['h', 't'] { Some(Honor::Hatsu) }
    else if s == seq!['c', 'n'] { Some(Honor::Chun) }
    else { None }
}

pub open spec fn suit_of_char(c: char) -> Option<Suit> {
    if c == 'm' { Some(Suit::Man) }
    else if c == 'p' { Some(Suit::Pin) }
    else if c == 's' { Some(Suit::Sou) }
    else { None }
}

/// What the text `s` denotes: exactly the forms `tile_text` produces, nothing else.
pub open spec fn parse_tile(s: Seq<char>) -> Option<Tile> {
    if honor_of_code(s) is Some {
        Some(Tile { tile_type: TileType::Honor(honor_of_code(s)->0), is_red: false })
    } else if (s.len() == 2 || (s.len() == 3 && s[2] == 'r'))
        && '1' <= s[0] <= '9' && suit_of_char(s[1]) is Some {
        Some(Tile {
            tile_type: TileType::Number { suit: suit_of_char(s[1])->0, value: (s[0] as u32 - '0' as u32) as u8 },
            is_red: s.len() == 3,
        })
    } else {
        None
    }
}

/// Parsing the text form of any constructible tile gives the tile back.
pub proof fn lemma_text_round_trip(t: Tile)
    requires
        tile_valid(t),
    ensures
        parse_tile(tile_text(t)) == Some(t),
{
    match t.tile_type {
        TileType::Number { suit, value } => {
            let s = tile_text(t);
            assert(honor_of_code(s) is None);
        },
        TileType::Honor(h) => {},
    }
}

/// Parsing accepts only the exact text form of the tile it returns.
pub proof fn lemma_parse_exact(s: Seq<char>)
    requires
        parse_tile(s) is Some,
    ensures
        tile_valid(parse_tile(s)->0),
        tile_text(parse_tile(s)->0) == s,
{
    if honor_of_code(s) is None {
        let t = parse_tile(s)->0;
        assert(tile_text(t) =~= s);
    }
}

fn digit_str(v: u8) -> (r: &'static str)
    requires
        1 <= v <= 9,
    ensures
        r@ == seq![digit_char(v as int)],
{
    proof {
        reveal_strlit("1"); reveal_strlit("2"); reveal_strlit("3");
        reveal_strlit("4"); reveal_strlit("5"); reveal_strlit("6");
        reveal_strlit("7"); reveal_strlit("8"); reveal_strlit("9");
    }
    match v {
        1 => "1",
        2 => "2",
        3 => "3",
        4 => "4",
        5 => "5",
        6 => "6",
        7 => "7",
        8 => "8",
        _ => "9",
    }
}

fn suit_str(s: Suit) -> (r: &'static str)
    ensures
        r@ == seq![suit_char(s)],
{
    proof { reveal_strlit("m"); reveal_strlit("p"); reveal_strlit("s"); }
    match s {
        Suit::Man => "m",
        Suit::Pin => "p",
        Suit::Sou => "s",
    }
}

fn honor_str(h: Honor) -> (r: &'static str)
    ensures
        r@ == honor_code(h),
{
    proof {
        reveal_strlit("to"); reveal_strlit("na"); reveal_strlit("sa"); reveal_strlit("pe");
        reveal_strlit("hk"); reveal_strlit("ht"); reveal_strlit("cn");
    }
    match h {
        Honor::Ton => "to",
        Honor::Nan => "na",
        Honor::Shaa => "sa",
        Honor::Pei => "pe",
        Honor::Haku => "hk",
        Honor::Hatsu => "ht",
        Honor::Chun => "cn",
    }
}

impl Tile {
    pub open spec fn valid(&self) -> bool {
        tile_valid(*self)
    }

    pub open spec fn kind(&self) -> int {
        kind_of(*self)
    }

    /// A number tile; a rank outside 1..9 is a programming error and is ruled out here.
    pub fn new_number(suit: Suit, value: u8, is_red: bool) -> (r: Self)
        requires
            1 <= value <= 9,
        ensures
            r == (Tile { tile_type: TileType::Number { suit, value }, is_red }),
            r.valid(),
    {
        Tile { tile_type: TileType::Number { suit, value }, is_red }
    }

    pub fn new_honor(honor: Honor) -> (r: Self)
        ensures
            r == (Tile { tile_type: TileType::Honor(honor), is_red: false }),
            r.valid(),
    {
        Tile { tile_type: TileType::Honor(honor), is_red: false }
    }

    /// The dense kind index (0..34), ignoring the bonus mark.
    pub fn kind_index(&self) -> (r: usize)
        requires
            self.valid(),
        ensures
            r as int == self.kind(),
            r < NUM_KINDS,
    {
        match self.tile_type {
            TileType::Number { suit, value } => {
                let s: usize = match suit {
                    Suit::Man => 0,
                    Suit::Pin => 1,
                    Suit::Sou => 2,
                };
                s * 9 + value as usize - 1
            },
            TileType::Honor(h) => {
                let i: usize = match h {
                    Honor::Ton => 0,
                    Honor::Nan => 1,
                    Honor::Shaa => 2,
                    Honor::Pei => 3,
                    Honor::Haku => 4,
                    Honor::Hatsu => 5,
                    Honor::Chun => 6,
                };
                27 + i
            },
        }
    }

    pub fn to_string(&self) -> (r: String)
        requires
            self.valid(),
        ensures
            r@ == tile_text(*self),
    {
        match self.tile_type {
            TileType::Number { suit, value } => {
                let mut r = String::from_str(digit_str(value));
                r.append(suit_str(suit));
                if self.is_red {
                    proof { reveal_strlit("r"); }
                    r.append("r");
                }
                proof {
                    assert(r@ =~= tile_text(*self));
                }
                r
            },
            TileType::Honor(h) => String::from_str(honor_str(h)),
        }
    }

    /// Reads the text form of a tile; any other text gives `None`.
    pub fn from_string(s: &str) -> (r: Option<Self>)
        ensures
            r == parse_tile(s@),
    {
        let n = s.unicode_len();
        if n < 2 || n > 3 {
            return None;
        }
        let c0 = s.get_char(0);
        let c1 = s.get_char(1);
        if n == 2 {
            let h = if c0 == 't' && c1 == 'o' {
                Some(Honor::Ton)
            } else if c0 == 'n' && c1 == 'a' {
                Some(Honor::Nan)
            } else if c0 == 's' && c1 == 'a' {
                Some(Honor::Shaa)
            } else if c0 == 'p' && c1 == 'e' {
                Some(Honor::Pei)
            } else if c0 == 'h' && c1 == 'k' {
                Some(Honor::Haku)
            } else if c0 == 'h' && c1 == 't' {
                Some(Honor::Hatsu)
            } else if c0 == 'c' && c1 == 'n' {
                Some(Honor::Chun)
            } else {
                None
            };
            assert(s@ =~= seq![c0, c1]);
            if let Some(h) = h {
                return Some(Tile::new_honor(h));
            }
        } else {
            assert(honor_of_code(s@) is None);
            if s.get_char(2) != 'r' {
                return None;
            }
        }
        assert(honor_of_code(s@) is None);
        if c0 < '1' || c0 > '9' {
            return None;
        }
        let suit = if c1 == 'm' {
            Suit::Man
        } else if c1 == 'p' {
            Suit::Pin
        } else if c1 == 's' {
            Suit::Sou
        } else {
            return None;
        };
        let value: u8 = (c0 as u32 - '0' as u32) as u8;
        Some(Tile::new_number(suit, value, n == 3))
    }
}

} // verus!
