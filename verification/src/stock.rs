//! The dice that a player has in hand, kept in order.

use crate::card::{lemma_die_key_injective, Die};
use vstd::prelude::*;

verus! {

/// Whether the dice are in nondecreasing order of color and value.
pub open spec fn stock_sorted(s: Seq<Die>) -> bool {
    forall|i: int, j: int| 0 <= i < j < s.len() ==> (#[trigger] s[i]).key() <= (#[trigger] s[j]).key()
}

/// Whether `p` is where the first die equal to `d` stands or where `d` would
/// have to be put: the dice before it are smaller, the others are not.
pub open spec fn is_stock_slot(s: Seq<Die>, d: Die, p: int) -> bool {
    &&& 0 <= p <= s.len()
    &&& forall|j: int| 0 <= j < p ==> (#[trigger] s[j]).key() < d.key()
    &&& forall|j: int| p <= j < s.len() ==> (#[trigger] s[j]).key() >= d.key()
}

/// Where the first die equal to `d` stands or where `d` would have to be put.
pub open spec fn stock_slot(s: Seq<Die>, d: Die) -> int {
    choose|p: int| is_stock_slot(s, d, p)
}

/// The stock with one more die `d`.
pub open spec fn stock_with(s: Seq<Die>, d: Die) -> Seq<Die> {
    s.insert(stock_slot(s, d), d)
}

/// The stock with one die `d` less.
pub open spec fn stock_without(s: Seq<Die>, d: Die) -> Seq<Die> {
    s.remove(stock_slot(s, d))
}

/// The different dice of a stock, in its order.
pub open spec fn distinct(s: Seq<Die>) -> Seq<Die>
    decreases s.len(),
{
    if s.len() == 0 {
        Seq::empty()
    } else {
        let front = distinct(s.drop_last());
        if front.len() > 0 && front.last() == s.last() {
            front
        } else {
            front.push(s.last())
        }
    }
}

/// In a sorted stock every die has its slot.
pub proof fn lemma_stock_slot_exists(s: Seq<Die>, d: Die)
    requires
        stock_sorted(s),
    ensures
        is_stock_slot(s, d, stock_slot(s, d)),
    decreases s.len(),
{
    if s.len() == 0 {
        assert(is_stock_slot(s, d, 0));
    } else if s.last().key() < d.key() {
        assert(is_stock_slot(s, d, s.len() as int));
    } else {
        let front = s.drop_last();
        lemma_stock_slot_exists(front, d);
        let p = stock_slot(front, d);
        assert forall|j: int| 0 <= j < p implies (#[trigger] s[j]).key() < d.key() by {
            assert(front[j] == s[j]);
        }
        assert forall|j: int| p <= j < s.len() implies (#[trigger] s[j]).key() >= d.key() by {
            if j < front.len() {
                assert(front[j] == s[j]);
            }
        }
        assert(is_stock_slot(s, d, p));
    }
}

/// A die has one slot only.
pub proof fn lemma_stock_slot_unique(s: Seq<Die>, d: Die, p: int)
    requires
        is_stock_slot(s, d, p),
    ensures
        stock_slot(s, d) == p,
{
    let q = stock_slot(s, d);
    assert(is_stock_slot(s, d, q));
    if q < p {
        assert(s[q].key() < d.key());
    } else if p < q {
        assert(s[p].key() < d.key());
    }
}

/// In a sorted stock that holds `d`, the slot of `d` holds `d`.
pub proof fn lemma_stock_holds(s: Seq<Die>, d: Die)
    requires
        stock_sorted(s),
    ensures
        s.contains(d) <==> (stock_slot(s, d) < s.len() && s[stock_slot(s, d)] == d),
        0 <= stock_slot(s, d) <= s.len(),
{
    lemma_stock_slot_exists(s, d);
    let p = stock_slot(s, d);
    if s.contains(d) {
        let i = choose|i: int| 0 <= i < s.len() && s[i] == d;
        assert(s[i].key() == d.key());
        assert(p <= i);
        assert(s[p].key() >= d.key());
        if p < i {
            assert(s[p].key() <= s[i].key());
        }
        lemma_die_key_injective(s[p], d);
    }
}

/// Adding a die keeps the stock sorted, and taking it away again gives the
/// stock back.
pub proof fn lemma_stock_with(s: Seq<Die>, d: Die)
    requires
        stock_sorted(s),
    ensures
        stock_sorted(stock_with(s, d)),
        stock_with(s, d).contains(d),
        stock_without(stock_with(s, d), d) == s,
        stock_with(s, d).len() == s.len() + 1,
{
    lemma_stock_slot_exists(s, d);
    let p = stock_slot(s, d);
    let r = stock_with(s, d);
    assert forall|i: int, j: int| 0 <= i < j < r.len() implies (#[trigger] r[i]).key() <= (
    #[trigger] r[j]).key() by {
        let a = if i < p { s[i] } else if i == p { d } else { s[i - 1] };
        let b = if j < p { s[j] } else if j == p { d } else { s[j - 1] };
        assert(r[i] == a);
        assert(r[j] == b);
    }
    assert(r[p] == d);
    assert forall|j: int| 0 <= j < p implies (#[trigger] r[j]).key() < d.key() by {
        assert(r[j] == s[j]);
    }
    assert forall|j: int| p <= j < r.len() implies (#[trigger] r[j]).key() >= d.key() by {
        if j > p {
            assert(r[j] == s[j - 1]);
        }
    }
    assert(is_stock_slot(r, d, p));
    lemma_stock_slot_unique(r, d, p);
    assert(r.remove(p) =~= s);
}

/// Taking a die away keeps the stock sorted, and adding it again gives the
/// stock back.
pub proof fn lemma_stock_without(s: Seq<Die>, d: Die)
    requires
        stock_sorted(s),
        s.contains(d),
    ensures
        stock_sorted(stock_without(s, d)),
        stock_with(stock_without(s, d), d) == s,
        stock_without(s, d).len() == s.len() - 1,
{
    lemma_stock_holds(s, d);
    lemma_stock_slot_exists(s, d);
    let p = stock_slot(s, d);
    let r = stock_without(s, d);
    assert forall|i: int, j: int| 0 <= i < j < r.len() implies (#[trigger] r[i]).key() <= (
    #[trigger] r[j]).key() by {
        let a = if i < p { s[i] } else { s[i + 1] };
        let b = if j < p { s[j] } else { s[j + 1] };
        assert(r[i] == a);
        assert(r[j] == b);
    }
    assert forall|j: int| 0 <= j < p implies (#[trigger] r[j]).key() < d.key() by {
        assert(r[j] == s[j]);
    }
    assert forall|j: int| p <= j < r.len() implies (#[trigger] r[j]).key() >= d.key() by {
        assert(r[j] == s[j + 1]);
    }
    assert(is_stock_slot(r, d, p));
    lemma_stock_slot_unique(r, d, p);
    assert(r.insert(p, d) =~= s);
}

/// Every die among the different dice of a stock is a die of the stock.
pub proof fn lemma_distinct_within(s: Seq<Die>)
    ensures
        forall|i: int| 0 <= i < distinct(s).len() ==> s.contains(#[trigger] distinct(s)[i]),
        distinct(s).len() <= s.len(),
    decreases s.len(),
{
    if s.len() > 0 {
        let front = s.drop_last();
        lemma_distinct_within(front);
        assert forall|i: int| 0 <= i < distinct(s).len() implies s.contains(
            #[trigger] distinct(s)[i],
        ) by {
            let d = distinct(s)[i];
            if i < distinct(front).len() {
                assert(distinct(front)[i] == d);
                assert(front.contains(d));
                let k = choose|k: int| 0 <= k < front.len() && front[k] == d;
                assert(s[k] == d);
            } else {
                assert(s[s.len() - 1] == d);
            }
        }
    }
}

/// Where the first die equal to `d` stands in the stock or where `d` would
/// have to be put.
pub fn find_slot(stock: &Vec<Die>, d: &Die) -> (p: usize)
    requires
        stock_sorted(stock@),
    ensures
        p as int == stock_slot(stock@, *d),
        is_stock_slot(stock@, *d, p as int),
        stock@.contains(*d) <==> (p < stock.len() && stock@[p as int] == *d),
{
    let k = d.order_key();
    let n = stock.len();
    let mut i: usize = 0;
    while i < n && stock[i].order_key() < k
        invariant
            n == stock.len(),
            i <= n,
            k == d.key(),
            forall|j: int| 0 <= j < i ==> (#[trigger] stock@[j]).key() < d.key(),
        decreases n - i,
    {
        i += 1;
    }
    proof {
        assert forall|j: int| i <= j < stock@.len() implies (#[trigger] stock@[j]).key()
            >= d.key() by {
            if i < j {
                assert(stock@[i as int].key() <= stock@[j].key());
            }
        }
        assert(is_stock_slot(stock@, *d, i as int));
        lemma_stock_slot_unique(stock@, *d, i as int);
        lemma_stock_holds(stock@, *d);
    }
    i
}

/// The different dice of a sorted stock, in its order.
pub fn distinct_dice(stock: &Vec<Die>) -> (r: Vec<Die>)
    ensures
        r@ == distinct(stock@),
{
    let mut r: Vec<Die> = Vec::new();
    let n = stock.len();
    let mut i: usize = 0;
    while i < n
        invariant
            n == stock.len(),
            i <= n,
            r@ == distinct(stock@.take(i as int)),
        decreases n - i,
    {
        let d = stock[i];
        proof {
            assert(stock@.take(i + 1).drop_last() =~= stock@.take(i as int));
        }
        let m = r.len();
        if m == 0 || r[m - 1] != d {
            r.push(d);
        }
        i += 1;
    }
    proof {
        stock@.lemma_take_len();
    }
    r
}

/// Every die of a stock is among its different dice.
pub proof fn lemma_distinct_covers(s: Seq<Die>, d: Die)
    requires
        s.contains(d),
    ensures
        distinct(s).contains(d),
    decreases s.len(),
{
    let front = s.drop_last();
    let k = choose|k: int| 0 <= k < s.len() && s[k] == d;
    let head = distinct(front);
    if k < front.len() {
        assert(front[k] == d);
        lemma_distinct_covers(front, d);
        let i = choose|i: int| 0 <= i < head.len() && head[i] == d;
        assert(distinct(s)[i] == d);
    } else if head.len() > 0 && head.last() == s.last() {
        assert(distinct(s)[head.len() - 1] == d);
    } else {
        assert(distinct(s)[head.len() as int] == d);
    }
}

} // verus!
