use vstd::prelude::*;
use vstd::string::*;
use crate::tile::{Tile, tile_text, tile_valid};
use crate::counts::all_valid;

verus! {

/// Words joined by single spaces.
pub open spec fn join_words(ws: Seq<Seq<char>>) -> Seq<char>
    decreases ws.len(),
{
    if ws.len() == 0 {
        Seq::empty()
    } else if ws.len() == 1 {
        ws[0]
    } else {
        join_words(ws.drop_last()) + seq![' '] + ws.last()
    }
}

/// The text forms of tiles, in order.
pub open spec fn tile_words(s: Seq<Tile>) -> Seq<Seq<char>> {
    s.map_values(|t: Tile| tile_text(t))
}

/// The text forms of tiles written one after another, without separators.
pub open spec fn concat_tiles(s: Seq<Tile>) -> Seq<char>
    decreases s.len(),
{
    if s.len() == 0 { Seq::empty() } else { concat_tiles(s.drop_last()) + tile_text(s.last()) }
}

/// Appends `w` as the next word of a space-separated text.
pub(crate) fn push_word(r: &mut String, w: &str, first: bool, ghost_words: Ghost<Seq<Seq<char>>>)
    requires
        old(r)@ == join_words(ghost_words@),
        first == (ghost_words@.len() == 0),
    ensures
        final(r)@ == join_words(ghost_words@.push(w@)),
{
    let ghost ws = ghost_words@;
    assert(ws.push(w@).drop_last() =~= ws);
    if !first {
        proof { reveal_strlit(" "); }
        r.append(" ");
    }
    r.append(w);
    proof {
        if ws.len() == 0 {
            assert(r@ =~= w@);
        } else {
            assert(r@ =~= join_words(ws) + seq![' '] + w@);
        }
    }
}

/// The tiles' text forms separated by single spaces.
pub fn tiles_to_text(tiles: &Vec<Tile>) -> (r: String)
    requires
        all_valid(tiles@),
    ensures
        r@ == join_words(tile_words(tiles@)),
{
    let mut r = String::new();
    let mut i: usize = 0;
    while i < tiles.len()
        invariant
            i <= tiles@.len(),
            all_valid(tiles@),
            r@ == join_words(tile_words(tiles@.subrange(0, i as int))),
        decreases tiles@.len() - i,
    {
        assert(tile_valid(tiles@[i as int]));
        let w = tiles[i].to_string();
        push_word(&mut r, w.as_str(), i == 0, Ghost(tile_words(tiles@.subrange(0, i as int))));
        assert(tile_words(tiles@.subrange(0, i as int + 1)) =~= tile_words(tiles@.subrange(0, i as int)).push(w@));
        i += 1;
    }
    assert(tiles@.subrange(0, tiles@.len() as int) =~= tiles@);
    r
}

/// The tiles' text forms written one after another.
pub fn concat_tile_text(tiles: &Vec<Tile>) -> (r: String)
    requires
        all_valid(tiles@),
    ensures
        r@ == concat_tiles(tiles@),
{
    let mut r = String::new();
    let mut i: usize = 0;
    while i < tiles.len()
        invariant
            i <= tiles@.len(),
            all_valid(tiles@),
            r@ == concat_tiles(tiles@.subrange(0, i as int)),
        decreases tiles@.len() - i,
    {
        assert(tile_valid(tiles@[i as int]));
        let w = tiles[i].to_string();
        r.append(w.as_str());
        assert(tiles@.subrange(0, i as int + 1).drop_last() =~= tiles@.subrange(0, i as int));
        i += 1;
    }
    assert(tiles@.subrange(0, tiles@.len() as int) =~= tiles@);
    r
}


pub open spec fn decimal_digit(d: int) -> char {
    if d == 0 { '0' } else if d == 1 { '1' } else if d == 2 { '2' } else if d == 3 { '3' }
    else if d == 4 { '4' } else if d == 5 { '5' } else if d == 6 { '6' } else if d == 7 { '7' }
    else if d == 8 { '8' } else { '9' }
}

/// The decimal text of a natural number, without leading zeros.
pub open spec fn decimal_text(n: nat) -> Seq<char>
    decreases n,
{
    if n < 10 { seq![decimal_digit(n as int)] } else { decimal_text(n / 10) + seq![decimal_digit((n % 10) as int)] }
}

/// The decimal text of an integer, with a leading `-` when negative.
pub open spec fn signed_decimal_text(n: int) -> Seq<char> {
    if n < 0 { seq!['-'] + decimal_text((-n) as nat) } else { decimal_text(n as nat) }
}

fn digit_text(d: u64) -> (r: &'static str)
    requires
        d < 10,
    ensures
        r@ == seq![decimal_digit(d as int)],
{
    proof {
        reveal_strlit("0"); reveal_strlit("1"); reveal_strlit("2"); reveal_strlit("3"); reveal_strlit("4");
        reveal_strlit("5"); reveal_strlit("6"); reveal_strlit("7"); reveal_strlit("8"); reveal_strlit("9");
    }
    match d {
        0 => "0",
        1 => "1",
        2 => "2",
        3 => "3",
        4 => "4",
        5 => "5",
        6 => "6",
        7 => "7",
        8 => "8",
        _ => "9",
    }
}

/// Appends the decimal text of `n`.
pub fn append_decimal(r: &mut String, n: u64)
    ensures
        final(r)@ == old(r)@ + decimal_text(n as nat),
    decreases n,
{
    if n >= 10 {
        append_decimal(r, n / 10);
    }
    r.append(digit_text(n % 10));
    assert(final(r)@ =~= old(r)@ + decimal_text(n as nat));
}

/// Appends the decimal text of `n`, with a leading `-` when negative.
pub fn append_signed_decimal(r: &mut String, n: i64)
    requires
        n > i64::MIN,
    ensures
        final(r)@ == old(r)@ + signed_decimal_text(n as int),
{
    if n < 0 {
        proof { reveal_strlit("-"); }
        r.append("-");
        append_decimal(r, (-n) as u64);
        assert(final(r)@ =~= old(r)@ + signed_decimal_text(n as int));
    } else {
        append_decimal(r, n as u64);
    }
}

pub open spec fn hex_digit(d: int) -> char {
    if d < 10 { decimal_digit(d) } else if d == 10 { 'a' } else if d == 11 { 'b' } else if d == 12 { 'c' }
    else if d == 13 { 'd' } else if d == 14 { 'e' } else { 'f' }
}

/// The lower-case hexadecimal text of a natural number, without leading zeros.
pub open spec fn hex_text(n: nat) -> Seq<char>
    decreases n,
{
    if n < 16 { seq![hex_digit(n as int)] } else { hex_text(n / 16) + seq![hex_digit((n % 16) as int)] }
}

fn hex_digit_text(d: u64) -> (r: &'static str)
    requires
        d < 16,
    ensures
        r@ == seq![hex_digit(d as int)],
{
    if d < 10 {
        return digit_text(d);
    }
    proof {
        reveal_strlit("a"); reveal_strlit("b"); reveal_strlit("c");
        reveal_strlit("d"); reveal_strlit("e"); reveal_strlit("f");
    }
    match d {
        10 => "a",
        11 => "b",
        12 => "c",
        13 => "d",
        14 => "e",
        _ => "f",
    }
}

/// Appends the lower-case hexadecimal text of `n`.
pub fn append_hex(r: &mut String, n: u64)
    ensures
        final(r)@ == old(r)@ + hex_text(n as nat),
    decreases n,
{
    if n >= 16 {
        append_hex(r, n / 16);
    }
    r.append(hex_digit_text(n % 16));
    assert(final(r)@ =~= old(r)@ + hex_text(n as nat));
}

} // verus!
