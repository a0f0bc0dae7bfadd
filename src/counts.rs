use vstd::prelude::*;
use crate::tile::{Tile, kind_of, tile_valid, NUM_KINDS};

verus! {

/// How many tiles of `s` have kind `k` (the bonus mark is ignored).
pub open spec fn count_kind(s: Seq<Tile>, k: int) -> nat
    decreases s.len(),
{
    if s.len() == 0 {
        0
    } else {
        count_kind(s.drop_last(), k) + if kind_of(s.last()) == k { 1nat } else { 0nat }
    }
}

/// The kind-count vector of a tile sequence: entry `k` is the number of tiles of kind `k`.
pub open spec fn kind_counts(s: Seq<Tile>) -> Seq<int> {
    Seq::new(34, |k: int| count_kind(s, k) as int)
}

/// The mathematical view of an executable count vector.
pub open spec fn counts_view(v: Seq<usize>) -> Seq<int> {
    Seq::new(v.len(), |i: int| v[i] as int)
}

pub open spec fn all_valid(s: Seq<Tile>) -> bool {
    forall|i: int| 0 <= i < s.len() ==> tile_valid(#[trigger] s[i])
}

/// Sum of the first `n` entries of a count vector.
pub open spec fn sum_prefix(c: Seq<int>, n: int) -> int
    decreases n,
{
    if n <= 0 { 0 } else { sum_prefix(c, n - 1) + c[n - 1] }
}

pub open spec fn total(c: Seq<int>) -> int {
    sum_prefix(c, 34)
}

pub proof fn lemma_count_kind_le_len(s: Seq<Tile>, k: int)
    ensures
        count_kind(s, k) <= s.len(),
    decreases s.len(),
{
    if s.len() > 0 {
        lemma_count_kind_le_len(s.drop_last(), k);
    }
}

pub proof fn lemma_count_kind_push(s: Seq<Tile>, t: Tile, k: int)
    ensures
        count_kind(s.push(t), k) == count_kind(s, k) + if kind_of(t) == k { 1nat } else { 0nat },
{
    assert(s.push(t).drop_last() =~= s);
}

/// Counting over the kinds of a valid sequence adds up to its length.
pub proof fn lemma_total_counts(s: Seq<Tile>)
    requires
        all_valid(s),
    ensures
        total(kind_counts(s)) == s.len(),
    decreases s.len(),
{
    if s.len() == 0 {
        lemma_sum_prefix_zero(kind_counts(s), 34);
    } else {
        let p = s.drop_last();
        assert(all_valid(p)) by {
            assert forall|i: int| 0 <= i < p.len() implies tile_valid(#[trigger] p[i]) by {
                assert(p[i] == s[i]);
            }
        }
        lemma_total_counts(p);
        let t = s.last();
        assert(tile_valid(s[s.len() - 1]));
        let kt = kind_of(t);
        assert(0 <= kt < 34) by {
            match t.tile_type {
                crate::tile::TileType::Number { suit, value } => {},
                crate::tile::TileType::Honor(h) => {},
            }
        }
        lemma_sum_prefix_step(kind_counts(p), kind_counts(s), kt, 34, s.len() as int);
        assert(total(kind_counts(s)) == sum_prefix(kind_counts(s), 34));
        assert(total(kind_counts(p)) == sum_prefix(kind_counts(p), 34));
    }
}

proof fn lemma_sum_prefix_zero(c: Seq<int>, n: int)
    requires
        0 <= n <= c.len(),
        forall|k: int| 0 <= k < n ==> c[k] == 0,
    ensures
        sum_prefix(c, n) == 0,
    decreases n,
{
    if n > 0 {
        lemma_sum_prefix_zero(c, n - 1);
    }
}

proof fn lemma_sum_prefix_step(a: Seq<int>, b: Seq<int>, kt: int, n: int, len: int)
    requires
        a.len() == 34,
        b.len() == 34,
        0 <= kt < 34,
        0 <= n <= 34,
        forall|k: int| 0 <= k < 34 && k != kt ==> a[k] == b[k],
        b[kt] == a[kt] + 1,
    ensures
        sum_prefix(b, n) == sum_prefix(a, n) + if kt < n { 1int } else { 0int },
    decreases n,
{
    if n > 0 {
        lemma_sum_prefix_step(a, b, kt, n - 1, len);
    }
}

/// Builds the kind-count vector of `tiles`.
pub fn create_tile_map(tiles: &Vec<Tile>) -> (r: Vec<usize>)
    requires
        all_valid(tiles@),
    ensures
        counts_view(r@) == kind_counts(tiles@),
        r@.len() == 34,
{
    let mut r: Vec<usize> = Vec::new();
    let mut k: usize = 0;
    while k < NUM_KINDS
        invariant
            k <= 34,
            r@.len() == k,
            forall|j: int| 0 <= j < k ==> r@[j] == 0,
        decreases 34 - k,
    {
        r.push(0);
        k += 1;
    }
    let mut i: usize = 0;
    while i < tiles.len()
        invariant
            i <= tiles@.len(),
            all_valid(tiles@),
            r@.len() == 34,
            forall|j: int| 0 <= j < 34 ==> r@[j] == count_kind(tiles@.subrange(0, i as int), j),
        decreases tiles@.len() - i,
    {
        let t = tiles[i];
        assert(tile_valid(tiles@[i as int]));
        let kt = t.kind_index();
        proof {
            let p = tiles@.subrange(0, i as int);
            assert(tiles@.subrange(0, i as int + 1) =~= p.push(t));
            assert forall|j: int| 0 <= j < 34 implies count_kind(p.push(t), j)
                == count_kind(p, j) + if kind_of(t) == j { 1nat } else { 0nat } by {
                lemma_count_kind_push(p, t, j);
            }
            lemma_count_kind_le_len(p, kt as int);
        }
        let old_v = r[kt];
        r.set(kt, old_v + 1);
        i += 1;
    }
    assert(tiles@.subrange(0, tiles@.len() as int) =~= tiles@);
    assert(counts_view(r@) =~= kind_counts(tiles@));
    r
}

} // verus!
