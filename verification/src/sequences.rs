//! Facts about sequences that the laws of the game rest on.

use vstd::prelude::*;

verus! {

/// An element is in the flattened images of a sequence if and only if it is
/// in the image of one of the elements.
pub proof fn lemma_flat_map_contains<A, B>(s: Seq<A>, f: spec_fn(A) -> Seq<B>, b: B)
    ensures
        s.flat_map(f).contains(b) <==> exists|i: int|
            0 <= i < s.len() && (#[trigger] f(s[i])).contains(b),
    decreases s.len(),
{
    if s.len() == 0 {
        assert(s.flat_map(f) =~= Seq::<B>::empty()) by {
            assert(s.map_values(f) =~= Seq::<Seq<B>>::empty());
        }
    } else {
        let front = s.drop_last();
        let last = s.last();
        front.lemma_flat_map_push(f, last);
        assert(front.push(last) =~= s);
        lemma_flat_map_contains(front, f, b);
        let whole = s.flat_map(f);
        let head = front.flat_map(f);
        assert(whole =~= head + f(last));
        if whole.contains(b) {
            let k = choose|k: int| 0 <= k < whole.len() && whole[k] == b;
            if k < head.len() {
                assert(head[k] == b);
                assert(head.contains(b));
                let i = choose|i: int| 0 <= i < front.len() && (#[trigger] f(front[i])).contains(b);
                assert(f(s[i]).contains(b));
            } else {
                let tail = f(last);
                assert(tail[k - head.len()] == b);
                assert(f(s[s.len() - 1]).contains(b));
            }
        }
        if exists|i: int| 0 <= i < s.len() && (#[trigger] f(s[i])).contains(b) {
            let i = choose|i: int| 0 <= i < s.len() && (#[trigger] f(s[i])).contains(b);
            if i < front.len() {
                assert(f(front[i]).contains(b));
                assert(head.contains(b));
                let k = choose|k: int| 0 <= k < head.len() && head[k] == b;
                assert(whole[k] == b);
            } else {
                let tail = f(last);
                let k = choose|k: int| 0 <= k < tail.len() && tail[k] == b;
                assert(whole[head.len() + k] == b);
            }
        }
    }
}

/// An element is among the selected elements of a sequence if and only if it
/// is in the sequence and the test holds of it.
pub proof fn lemma_filter_contains<A>(s: Seq<A>, p: spec_fn(A) -> bool, a: A)
    ensures
        s.filter(p).contains(a) <==> s.contains(a) && p(a),
{
    if s.filter(p).contains(a) {
        s.lemma_filter_contains_rev(p, a);
        let k = choose|k: int| 0 <= k < s.filter(p).len() && s.filter(p)[k] == a;
        s.lemma_filter_pred(p, k);
    }
    if s.contains(a) && p(a) {
        let i = choose|i: int| 0 <= i < s.len() && s[i] == a;
        s.lemma_filter_contains(p, i);
    }
}

/// An element is among the images of a sequence if and only if it is the
/// image of one of the elements.
pub proof fn lemma_map_contains<A, B>(s: Seq<A>, f: spec_fn(A) -> B, b: B)
    ensures
        s.map_values(f).contains(b) <==> exists|i: int| 0 <= i < s.len() && #[trigger] f(s[i]) == b,
{
    let m = s.map_values(f);
    if m.contains(b) {
        let k = choose|k: int| 0 <= k < m.len() && m[k] == b;
        assert(f(s[k]) == b);
    }
    if exists|i: int| 0 <= i < s.len() && #[trigger] f(s[i]) == b {
        let i = choose|i: int| 0 <= i < s.len() && #[trigger] f(s[i]) == b;
        assert(m[i] == b);
    }
}

/// A copy of a vector of values that are copied bit by bit.
pub fn copy_of<T: Copy>(v: &Vec<T>) -> (r: Vec<T>)
    ensures
        r@ == v@,
{
    let mut r: Vec<T> = Vec::with_capacity(v.len());
    let n = v.len();
    let mut i: usize = 0;
    while i < n
        invariant
            n == v.len(),
            i <= n,
            r@ == v@.take(i as int),
        decreases n - i,
    {
        r.push(v[i]);
        proof {
            v@.lemma_take_succ_push(i as int);
        }
        i += 1;
    }
    proof {
        v@.lemma_take_len();
    }
    r
}

/// If the test holds of no element, no element is selected.
pub proof fn lemma_filter_none<A>(s: Seq<A>, p: spec_fn(A) -> bool)
    requires
        forall|i: int| 0 <= i < s.len() ==> !p(#[trigger] s[i]),
    ensures
        s.filter(p).len() == 0,
{
    let kept = s.filter(p);
    if kept.len() > 0 {
        assert(kept.contains(kept[0]));
        lemma_filter_contains(s, p, kept[0]);
        let i = choose|i: int| 0 <= i < s.len() && s[i] == kept[0];
        assert(!p(s[i]));
    }
}

/// If the test holds of some element, some element is selected.
pub proof fn lemma_filter_some<A>(s: Seq<A>, p: spec_fn(A) -> bool, i: int)
    requires
        0 <= i < s.len(),
        p(s[i]),
    ensures
        s.filter(p).len() > 0,
{
    assert(s.contains(s[i]));
    lemma_filter_contains(s, p, s[i]);
}

/// If the images of all elements are empty, so are the flattened images.
pub proof fn lemma_flat_map_none<A, B>(s: Seq<A>, f: spec_fn(A) -> Seq<B>)
    requires
        forall|i: int| 0 <= i < s.len() ==> (#[trigger] f(s[i])).len() == 0,
    ensures
        s.flat_map(f).len() == 0,
{
    let all = s.flat_map(f);
    if all.len() > 0 {
        assert(all.contains(all[0]));
        lemma_flat_map_contains(s, f, all[0]);
        let i = choose|i: int| 0 <= i < s.len() && (#[trigger] f(s[i])).contains(all[0]);
        assert(f(s[i]).len() == 0);
    }
}

/// If the image of some element is not empty, neither are the flattened images.
pub proof fn lemma_flat_map_some<A, B>(s: Seq<A>, f: spec_fn(A) -> Seq<B>, i: int)
    requires
        0 <= i < s.len(),
        f(s[i]).len() > 0,
    ensures
        s.flat_map(f).len() > 0,
{
    let image = f(s[i]);
    assert(image.contains(image[0]));
    lemma_flat_map_contains(s, f, image[0]);
}

} // verus!
