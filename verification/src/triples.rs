//! Selections of three positions: the candidates for three in a row.

use crate::coord::Coord;
use crate::grid::Grid;
use crate::sequences::lemma_filter_contains;
use itertools::Itertools;
use vstd::prelude::*;
use vstd::seq_lib::lemma_seq_concat_contains_all_elements;

verus! {

/// Three cell positions that may form a line.
pub type Triple = (Coord, Coord, Coord);

/// All pairs `(j, k)` with `lo <= j < k < n`, in lexicographic order.
pub open spec fn pairs_from(lo: int, n: int) -> Seq<(int, int)>
    decreases n - lo,
{
    if lo + 1 >= n {
        Seq::empty()
    } else {
        Seq::new((n - lo - 1) as nat, |t: int| (lo, lo + 1 + t)) + pairs_from(lo + 1, n)
    }
}

/// All triples `(i, j, k)` with `lo <= i < j < k < n`, in lexicographic order.
pub open spec fn triples_from(lo: int, n: int) -> Seq<(int, int, int)>
    decreases n - lo,
{
    if lo + 2 >= n {
        Seq::empty()
    } else {
        pairs_from(lo + 1, n).map_values(|p: (int, int)| (lo, p.0, p.1)) + triples_from(lo + 1, n)
    }
}

/// The selections of three elements of `s` by increasing position, ordered
/// lexicographically by position.
pub open spec fn combinations3(s: Seq<Coord>) -> Seq<Triple> {
    triples_from(0, s.len() as int).map_values(|t: (int, int, int)| (s[t.0], s[t.1], s[t.2]))
}

/// Calls `combinations(3)` of `itertools::Itertools` on the coordinates and
/// collects what it yields. Each selection keeps the order of the input, and
/// the selections come in lexicographic order of the positions selected.
#[verifier::external_body]
pub(crate) fn combinations_of_three(coords: &Vec<Coord>) -> (r: Vec<Triple>)
    ensures
        r@ == combinations3(coords@),
{
    coords.iter().combinations(3).map(|t| (*t[0], *t[1], *t[2])).collect()
}

/// There are at most `(n - lo)` squared pairs from `lo` on.
pub proof fn lemma_pairs_len(lo: int, n: int)
    requires
        0 <= lo <= n,
    ensures
        pairs_from(lo, n).len() <= (n - lo) * (n - lo),
    decreases n - lo,
{
    if lo + 1 < n {
        lemma_pairs_len(lo + 1, n);
        let m = n - lo;
        assert((m - 1) + (m - 1) * (m - 1) <= m * m) by (nonlinear_arith)
            requires
                m >= 1,
        ;
    } else {
        assert(0 <= (n - lo) * (n - lo)) by (nonlinear_arith);
    }
}

/// There are at most `(n - lo)` cubed triples from `lo` on.
pub proof fn lemma_triples_len(lo: int, n: int)
    requires
        0 <= lo <= n,
    ensures
        triples_from(lo, n).len() <= (n - lo) * (n - lo) * (n - lo),
    decreases n - lo,
{
    let m = n - lo;
    if lo + 2 < n {
        lemma_triples_len(lo + 1, n);
        lemma_pairs_len(lo + 1, n);
        assert((m - 1) * (m - 1) + (m - 1) * (m - 1) * (m - 1) <= m * m * m) by (nonlinear_arith)
            requires
                m >= 1,
        ;
    } else {
        assert(0 <= m * m * m) by (nonlinear_arith)
            requires
                m >= 0,
        ;
    }
}

/// A board of `n` cells has at most `n * n * n` selections of three cells.
pub proof fn lemma_combinations3_len(s: Seq<Coord>)
    ensures
        combinations3(s).len() <= s.len() * s.len() * s.len(),
{
    lemma_triples_len(0, s.len() as int);
}

/// The cached lines of a board with the given positions: the selections of
/// three positions that form a straight run without a gap.
pub open spec fn adjacent_triples_of(grid: Grid, keys: Seq<Coord>) -> Seq<Triple> {
    combinations3(keys).filter(grid.line_test())
}

/// Whether a triple names the position `c`.
pub open spec fn names(t: Triple, c: Coord) -> bool {
    c == t.0 || c == t.1 || c == t.2
}

/// `names` as a test on triples.
pub open spec fn naming(c: Coord) -> spec_fn(Triple) -> bool {
    |t: Triple| names(t, c)
}

/// The pairs from `lo` on are the pairs `(j, k)` with `lo <= j < k < n`.
pub proof fn lemma_pairs_from(lo: int, n: int, j: int, k: int)
    requires
        0 <= lo,
    ensures
        pairs_from(lo, n).contains((j, k)) <==> lo <= j < k < n,
    decreases n - lo,
{
    if lo + 1 < n {
        let first = Seq::new((n - lo - 1) as nat, |t: int| (lo, lo + 1 + t));
        let rest = pairs_from(lo + 1, n);
        lemma_pairs_from(lo + 1, n, j, k);
        lemma_seq_concat_contains_all_elements(first, rest, (j, k));
        if first.contains((j, k)) {
            let t = choose|t: int| 0 <= t < first.len() && first[t] == (j, k);
            assert(j == lo && k == lo + 1 + t);
        }
        if j == lo && lo < k < n {
            assert(first[k - lo - 1] == (j, k));
        }
    } else if pairs_from(lo, n).contains((j, k)) {
        let t = choose|t: int| 0 <= t < pairs_from(lo, n).len() && pairs_from(lo, n)[t] == (j, k);
    }
}

/// The triples from `lo` on are the triples `(i, j, k)` with
/// `lo <= i < j < k < n`.
pub proof fn lemma_triples_from(lo: int, n: int, i: int, j: int, k: int)
    requires
        0 <= lo,
    ensures
        triples_from(lo, n).contains((i, j, k)) <==> lo <= i < j < k < n,
    decreases n - lo,
{
    if lo + 2 < n {
        let pairs = pairs_from(lo + 1, n);
        let first = pairs.map_values(|p: (int, int)| (lo, p.0, p.1));
        let rest = triples_from(lo + 1, n);
        lemma_triples_from(lo + 1, n, i, j, k);
        lemma_pairs_from(lo + 1, n, j, k);
        lemma_seq_concat_contains_all_elements(first, rest, (i, j, k));
        if first.contains((i, j, k)) {
            let t = choose|t: int| 0 <= t < first.len() && first[t] == (i, j, k);
            assert(pairs[t] == (j, k));
            assert(pairs.contains((j, k)));
        }
        if i == lo && pairs.contains((j, k)) {
            let t = choose|t: int| 0 <= t < pairs.len() && pairs[t] == (j, k);
            assert(first[t] == (i, j, k));
        }
    } else if triples_from(lo, n).contains((i, j, k)) {
        let t = choose|t: int|
            0 <= t < triples_from(lo, n).len() && triples_from(lo, n)[t] == (i, j, k);
    }
}

/// Whether `t` selects three elements of `s` at the increasing positions
/// `i`, `j` and `k`.
pub open spec fn selects(s: Seq<Coord>, t: Triple, i: int, j: int, k: int) -> bool {
    0 <= i < j < k < s.len() && t == (s[i], s[j], s[k])
}

/// The selections of three are the triples of elements at increasing positions.
pub proof fn lemma_combinations3(s: Seq<Coord>, t: Triple)
    ensures
        combinations3(s).contains(t) <==> exists|i: int, j: int, k: int|
            #[trigger] selects(s, t, i, j, k),
{
    let index = triples_from(0, s.len() as int);
    let all = combinations3(s);
    if all.contains(t) {
        let a = choose|a: int| 0 <= a < all.len() && all[a] == t;
        let (i, j, k) = index[a];
        assert(index.contains((i, j, k)));
        lemma_triples_from(0, s.len() as int, i, j, k);
        assert(selects(s, t, i, j, k));
    }
    if exists|i: int, j: int, k: int| #[trigger] selects(s, t, i, j, k) {
        let (i, j, k) = choose|i: int, j: int, k: int| #[trigger] selects(s, t, i, j, k);
        lemma_triples_from(0, s.len() as int, i, j, k);
        let a = choose|a: int| 0 <= a < index.len() && index[a] == (i, j, k);
        assert(all[a] == t);
    }
}

/// The cached lines of a board with the given positions are the triples of
/// positions, in their order, that form a straight run without a gap.
pub proof fn lemma_adjacent_triples(grid: Grid, keys: Seq<Coord>, t: Triple)
    ensures
        adjacent_triples_of(grid, keys).contains(t) <==> grid.lines_up(t) && exists|
            i: int,
            j: int,
            k: int,
        | #[trigger] selects(keys, t, i, j, k),
{
    lemma_combinations3(keys, t);
    lemma_filter_contains(combinations3(keys), grid.line_test(), t);
}

} // verus!
