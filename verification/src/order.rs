//! Stable sorting.
//!
//! Search results, project files and shard directories are put in order before they are handed
//! out. Items that rank the same keep the order they came in.

use vstd::prelude::*;

verus! {

/// An order: whether the first item may stand before the second.
pub type Order<A> = spec_fn(A, A) -> bool;

/// Whether `le` ranks any two items, one way or the other, and does so consistently.
pub open spec fn ranks<A>(le: Order<A>) -> bool {
    &&& forall|a: A, b: A| #[trigger] le(a, b) || le(b, a)
    &&& forall|a: A, b: A, c: A| #[trigger] le(a, b) && #[trigger] le(b, c) ==> le(a, c)
}

/// `s` with `x` put in front of the first item that `x` may stand before.
pub open spec fn placed<A>(le: Order<A>, x: A, s: Seq<A>) -> Seq<A>
    decreases s.len(),
{
    if s.len() == 0 || le(x, s[0]) {
        seq![x] + s
    } else {
        seq![s[0]] + placed(le, x, s.skip(1))
    }
}

/// `s` in order, items of the same rank as they came.
pub open spec fn stable_sorted<A>(le: Order<A>, s: Seq<A>) -> Seq<A>
    decreases s.len(),
{
    if s.len() == 0 {
        s
    } else {
        placed(le, s[0], stable_sorted(le, s.skip(1)))
    }
}

/// Whether every item may stand before those after it.
pub open spec fn in_order<A>(le: Order<A>, s: Seq<A>) -> bool {
    forall|i: int, j: int| 0 <= i < j < s.len() ==> le(#[trigger] s[i], #[trigger] s[j])
}

proof fn lemma_placed_holds<A>(le: Order<A>, x: A, s: Seq<A>)
    ensures
        placed(le, x, s).to_multiset() =~= s.to_multiset().insert(x),
        placed(le, x, s).len() == s.len() + 1,
    decreases s.len(),
{
    broadcast use vstd::seq_lib::group_to_multiset_ensures;

    if s.len() == 0 || le(x, s[0]) {
        vstd::seq_lib::lemma_multiset_commutative(seq![x], s);
        assert(seq![x] =~= Seq::<A>::empty().push(x));
        assert(Seq::<A>::empty().to_multiset() =~= vstd::multiset::Multiset::empty());
    } else {
        lemma_placed_holds(le, x, s.skip(1));
        vstd::seq_lib::lemma_multiset_commutative(seq![s[0]], placed(le, x, s.skip(1)));
        vstd::seq_lib::lemma_multiset_commutative(seq![s[0]], s.skip(1));
        assert(seq![s[0]] + s.skip(1) =~= s);
        assert(seq![s[0]] =~= Seq::<A>::empty().push(s[0]));
    }
}

proof fn lemma_skip_in_order<A>(le: Order<A>, s: Seq<A>)
    requires
        in_order(le, s),
        s.len() > 0,
    ensures
        in_order(le, s.skip(1)),
{
    let rest = s.skip(1);
    assert forall|i: int, j: int| 0 <= i < j < rest.len() implies le(
        #[trigger] rest[i],
        #[trigger] rest[j],
    ) by {
        assert(le(s[i + 1], s[j + 1]));
    }
}

proof fn lemma_placed_in_order<A>(le: Order<A>, x: A, s: Seq<A>)
    requires
        ranks(le),
        in_order(le, s),
    ensures
        in_order(le, placed(le, x, s)),
    decreases s.len(),
{
    broadcast use vstd::seq_lib::group_to_multiset_ensures;

    let r = placed(le, x, s);
    if s.len() == 0 || le(x, s[0]) {
        assert forall|i: int, j: int| 0 <= i < j < r.len() implies le(
            #[trigger] r[i],
            #[trigger] r[j],
        ) by {
            if i == 0 && j > 1 {
                assert(le(s[0], s[j - 1]));
            } else if i > 0 {
                assert(le(s[i - 1], s[j - 1]));
            }
        }
    } else {
        let rest = s.skip(1);
        lemma_skip_in_order(le, s);
        lemma_placed_in_order(le, x, rest);
        lemma_placed_holds(le, x, rest);
        let t = placed(le, x, rest);
        assert forall|i: int, j: int| 0 <= i < j < r.len() implies le(
            #[trigger] r[i],
            #[trigger] r[j],
        ) by {
            if i == 0 {
                assert(t.to_multiset().count(t[j - 1]) > 0);
                if t[j - 1] == x {
                    assert(le(s[0], x) || le(x, s[0]));
                } else {
                    assert(rest.to_multiset().count(t[j - 1]) > 0);
                    assert(rest.contains(t[j - 1]));
                    let k = choose|k: int| 0 <= k < rest.len() && rest[k] == t[j - 1];
                    assert(le(s[0], s[k + 1]));
                }
            } else {
                assert(le(t[i - 1], t[j - 1]));
            }
        }
    }
}

/// Sorting gives the same items, in order.
pub proof fn lemma_stable_sorted<A>(le: Order<A>, s: Seq<A>)
    requires
        ranks(le),
    ensures
        in_order(le, stable_sorted(le, s)),
        stable_sorted(le, s).to_multiset() =~= s.to_multiset(),
        stable_sorted(le, s).len() == s.len(),
    decreases s.len(),
{
    broadcast use vstd::seq_lib::group_to_multiset_ensures;

    if s.len() > 0 {
        lemma_stable_sorted(le, s.skip(1));
        lemma_placed_in_order(le, s[0], stable_sorted(le, s.skip(1)));
        lemma_placed_holds(le, s[0], stable_sorted(le, s.skip(1)));
        vstd::seq_lib::lemma_multiset_commutative(seq![s[0]], s.skip(1));
        assert(seq![s[0]] =~= Seq::<A>::empty().push(s[0]));
        assert(seq![s[0]] + s.skip(1) =~= s);
    }
}

/// The items of `s` that rank the same as `x`, as they came.
pub open spec fn peers<A>(le: Order<A>, s: Seq<A>, x: A) -> Seq<A> {
    s.filter(|y: A| le(y, x) && le(x, y))
}

proof fn lemma_placed_keeps_peers<A>(le: Order<A>, x: A, s: Seq<A>, k: A)
    requires
        ranks(le),
        in_order(le, s),
    ensures
        peers(le, placed(le, x, s), k) == peers(le, seq![x] + s, k),
    decreases s.len(),
{
    if s.len() == 0 || le(x, s[0]) {
    } else {
        let p = |y: A| le(y, k) && le(k, y);
        let rest = s.skip(1);
        lemma_skip_in_order(le, s);
        lemma_placed_keeps_peers(le, x, rest, k);
        Seq::filter_distributes_over_add(seq![s[0]], placed(le, x, rest), p);
        Seq::filter_distributes_over_add(seq![x], rest, p);
        assert(s =~= seq![s[0]] + rest);
        Seq::filter_distributes_over_add(seq![x], s, p);
        Seq::filter_distributes_over_add(seq![s[0]], rest, p);
        if p(x) && p(s[0]) {
            assert(le(x, k) && le(k, s[0]));
            assert(false);
        }
        reveal(Seq::filter);
        let fx = seq![x].filter(p);
        let fs = seq![s[0]].filter(p);
        assert(seq![x].drop_last() =~= Seq::<A>::empty());
        assert(seq![s[0]].drop_last() =~= Seq::<A>::empty());
        assert(Seq::<A>::empty().filter(p) =~= Seq::<A>::empty());
        assert(fx.len() == 0 || fs.len() == 0);
        assert(fs + (fx + rest.filter(p)) =~= fx + (fs + rest.filter(p)));
    }
}

/// Sorting is stable: items that rank the same keep the order they came in.
pub proof fn lemma_sort_is_stable<A>(le: Order<A>, s: Seq<A>, k: A)
    requires
        ranks(le),
    ensures
        peers(le, stable_sorted(le, s), k) == peers(le, s, k),
    decreases s.len(),
{
    if s.len() > 0 {
        let p = |y: A| le(y, k) && le(k, y);
        let rest = s.skip(1);
        lemma_sort_is_stable(le, rest, k);
        lemma_stable_sorted(le, rest);
        lemma_placed_keeps_peers(le, s[0], stable_sorted(le, rest), k);
        Seq::filter_distributes_over_add(seq![s[0]], stable_sorted(le, rest), p);
        Seq::filter_distributes_over_add(seq![s[0]], rest, p);
        assert(s =~= seq![s[0]] + rest);
    }
}

/// Whether the items of `s` rank in `le` as their images under `f` rank in `me`.
pub open spec fn ranks_alike<A, B>(
    le: Order<A>,
    me: Order<B>,
    f: spec_fn(A) -> B,
    s: Seq<A>,
) -> bool {
    forall|a: A, b: A|
        #![trigger le(a, b)]
        s.contains(a) && s.contains(b) ==> le(a, b) == me(f(a), f(b))
}

proof fn lemma_sorted_contains<A>(le: Order<A>, s: Seq<A>, a: A)
    requires
        stable_sorted(le, s).contains(a),
    ensures
        s.contains(a),
    decreases s.len(),
{
    broadcast use vstd::seq_lib::group_to_multiset_ensures;

    let rest = s.skip(1);
    let t = stable_sorted(le, rest);
    lemma_placed_holds(le, s[0], t);
    assert(stable_sorted(le, s).to_multiset().count(a) > 0);
    if a == s[0] {
    } else {
        assert(t.to_multiset().count(a) > 0);
        assert(t.contains(a));
        lemma_sorted_contains(le, rest, a);
        let k = choose|k: int| 0 <= k < rest.len() && rest[k] == a;
        assert(s[k + 1] == a);
    }
}

proof fn lemma_placed_maps<A, B>(
    le: Order<A>,
    me: Order<B>,
    f: spec_fn(A) -> B,
    all: Seq<A>,
    x: A,
    s: Seq<A>,
)
    requires
        ranks_alike(le, me, f, all),
        all.contains(x),
        forall|i: int| 0 <= i < s.len() ==> all.contains(#[trigger] s[i]),
    ensures
        placed(le, x, s).map_values(f) == placed(me, f(x), s.map_values(f)),
    decreases s.len(),
{
    let image = s.map_values(f);
    if s.len() == 0 {
        assert(placed(le, x, s).map_values(f) =~= placed(me, f(x), image));
    } else {
        assert(all.contains(s[0]));
        assert(le(x, s[0]) == me(f(x), image[0]));
        if le(x, s[0]) {
            assert(placed(le, x, s).map_values(f) =~= placed(me, f(x), image));
        } else {
            lemma_placed_maps(le, me, f, all, x, s.skip(1));
            assert(s.skip(1).map_values(f) =~= image.skip(1));
            assert(placed(le, x, s).map_values(f) =~= placed(me, f(x), image));
        }
    }
}

/// Sorting goes by the ranks alone: where items rank as their images do, the sorted images are the
/// images of the sorted items.
pub proof fn lemma_sort_maps<A, B>(le: Order<A>, me: Order<B>, f: spec_fn(A) -> B, s: Seq<A>)
    requires
        ranks_alike(le, me, f, s),
    ensures
        stable_sorted(le, s).map_values(f) == stable_sorted(me, s.map_values(f)),
    decreases s.len(),
{
    if s.len() == 0 {
        assert(stable_sorted(le, s).map_values(f) =~= stable_sorted(me, s.map_values(f)));
    } else {
        let rest = s.skip(1);
        assert forall|a: A, b: A|
            #![trigger le(a, b)]
            rest.contains(a) && rest.contains(b) implies le(a, b) == me(f(a), f(b)) by {
            let i = choose|i: int| 0 <= i < rest.len() && rest[i] == a;
            let j = choose|j: int| 0 <= j < rest.len() && rest[j] == b;
            assert(s[i + 1] == a && s[j + 1] == b);
            assert(s.contains(a) && s.contains(b));
        }
        lemma_sort_maps(le, me, f, rest);
        assert(rest.map_values(f) =~= s.map_values(f).skip(1));
        let t = stable_sorted(le, rest);
        assert forall|i: int| 0 <= i < t.len() implies s.contains(#[trigger] t[i]) by {
            assert(t.contains(t[i]));
            lemma_sorted_contains(le, rest, t[i]);
            let k = choose|k: int| 0 <= k < rest.len() && rest[k] == t[i];
            assert(s[k + 1] == t[i]);
        }
        assert(s.contains(s[0]));
        lemma_placed_maps(le, me, f, s, s[0], t);
    }
}

/// A type whose values are ranked.
pub trait Ranked: Sized {
    /// Whether `self` may stand before `other`.
    spec fn before(self, other: Self) -> bool;

    /// Decides `before`.
    fn may_precede(&self, other: &Self) -> (r: bool)
        ensures
            r == self.before(*other),
    ;
}

/// The order of a ranked type.
pub open spec fn ranking<A: Ranked>() -> Order<A> {
    |a: A, b: A| a.before(b)
}

/// Puts `x` in its place.
fn place<A: Ranked>(out: &mut Vec<A>, x: A)
    ensures
        final(out)@ == placed(ranking::<A>(), x, old(out)@),
{
    let ghost le = ranking::<A>();
    let ghost all = out@;
    let mut i: usize = 0;
    assert(all.skip(0) =~= all);
    assert(all.take(0) + placed(le, x, all) =~= placed(le, x, all));
    while i < out.len() && !x.may_precede(&out[i])
        invariant
            out@ == all,
            le == ranking::<A>(),
            i <= all.len(),
            placed(le, x, all) == all.take(i as int) + placed(le, x, all.skip(i as int)),
        decreases all.len() - i,
    {
        let ghost rest = all.skip(i as int);
        assert(rest.skip(1) =~= all.skip(i + 1));
        assert(!le(x, rest[0]));
        assert(all.take(i as int) + (seq![rest[0]] + placed(le, x, rest.skip(1))) =~= all.take(
            i + 1,
        ) + placed(le, x, rest.skip(1)));
        i = i + 1;
    }
    assert(placed(le, x, all.skip(i as int)) =~= seq![x] + all.skip(i as int));
    out.insert(i, x);
    assert(out@ =~= all.take(i as int) + (seq![x] + all.skip(i as int)));
}

/// Sorts `items`, leaving items of the same rank as they came.
pub fn stable_sort<A: Ranked>(items: Vec<A>) -> (r: Vec<A>)
    ensures
        r@ == stable_sorted(ranking::<A>(), items@),
{
    let ghost all = items@;
    let mut rest = items;
    let mut out: Vec<A> = Vec::new();
    assert(all.skip(all.len() as int) =~= Seq::empty());
    assert(rest@ =~= all.take(all.len() as int));
    while rest.len() > 0
        invariant
            rest@.len() <= all.len(),
            rest@ == all.take(rest@.len() as int),
            out@ == stable_sorted(ranking::<A>(), all.skip(rest@.len() as int)),
        decreases rest@.len(),
    {
        let ghost n = rest@.len() as int;
        let x = rest.pop().unwrap();
        assert(x == all[n - 1]);
        assert(all.skip(n - 1).skip(1) =~= all.skip(n));
        assert(rest@ =~= all.take(n - 1));
        place(&mut out, x);
    }
    assert(all.skip(0) =~= all);
    out
}

} // verus!
