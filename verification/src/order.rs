//! Sorting by a total preorder.

use vstd::multiset::*;
use vstd::prelude::*;
use vstd::seq_lib::*;

verus! {

/// A type with a total preorder that can be tested.
pub trait Ordered: Sized {
    /// Whether `self` may stand before `other`.
    spec fn at_most(&self, other: &Self) -> bool;

    proof fn order_total(a: &Self, b: &Self)
        ensures
            a.at_most(b) || b.at_most(a),
    ;

    proof fn order_transitive(a: &Self, b: &Self, c: &Self)
        requires
            a.at_most(b),
            b.at_most(c),
        ensures
            a.at_most(c),
    ;

    fn is_at_most(&self, other: &Self) -> (r: bool)
        ensures
            r == self.at_most(other),
    ;
}

/// Whether no element stands before one that must precede it.
pub open spec fn sorted<T: Ordered>(s: Seq<T>) -> bool {
    forall|i: int, j: int|
        #![trigger s[i], s[j]]
        0 <= i <= j < s.len() ==> s[i].at_most(&s[j])
}

/// The position of the first element that `item` may stand before.
pub open spec fn insertion_point<T: Ordered>(s: Seq<T>, item: T) -> int
    decreases s.len(),
{
    if s.len() == 0 || item.at_most(&s[0]) {
        0
    } else {
        1 + insertion_point(s.subrange(1, s.len() as int), item)
    }
}

/// The elements of `s` in order; elements of equal rank keep their order.
pub open spec fn sorted_seq<T: Ordered>(s: Seq<T>) -> Seq<T>
    decreases s.len(),
{
    if s.len() == 0 {
        s
    } else {
        let rest = sorted_seq(s.subrange(1, s.len() as int));
        rest.insert(insertion_point(rest, s[0]), s[0])
    }
}

proof fn lemma_insertion_point<T: Ordered>(s: Seq<T>, item: T, n: int)
    requires
        0 <= n <= s.len(),
        forall|i: int| 0 <= i < n ==> !#[trigger] item.at_most(&s[i]),
        n < s.len() ==> item.at_most(&s[n]),
    ensures
        insertion_point(s, item) == n,
    decreases s.len(),
{
    if n > 0 {
        assert(!item.at_most(&s[0]));
        let rest = s.subrange(1, s.len() as int);
        assert forall|i: int| 0 <= i < n - 1 implies !#[trigger] item.at_most(&rest[i]) by {
            assert(rest[i] == s[i + 1]);
        }
        if n < s.len() {
            assert(rest[n - 1] == s[n]);
        }
        lemma_insertion_point(rest, item, n - 1);
    }
}

/// A sorted sequence is in order and holds the same elements.
pub proof fn lemma_sorted_seq<T: Ordered>(s: Seq<T>)
    ensures
        sorted(sorted_seq(s)),
        sorted_seq(s).to_multiset() == s.to_multiset(),
        sorted_seq(s).len() == s.len(),
    decreases s.len(),
{
    broadcast use group_to_multiset_ensures;

    if s.len() > 0 {
        let tail = s.subrange(1, s.len() as int);
        lemma_sorted_seq(tail);
        let rest = sorted_seq(tail);
        lemma_insertion_bounds(rest, s[0]);
        lemma_insert_sorted(rest, insertion_point(rest, s[0]), s[0]);
        assert(s =~= tail.insert(0, s[0]));
    }
}

proof fn lemma_insertion_bounds<T: Ordered>(s: Seq<T>, item: T)
    ensures
        0 <= insertion_point(s, item) <= s.len(),
        forall|i: int|
            0 <= i < insertion_point(s, item) ==> !#[trigger] item.at_most(&s[i]),
        insertion_point(s, item) < s.len() ==> item.at_most(&s[insertion_point(s, item)]),
    decreases s.len(),
{
    if s.len() > 0 && !item.at_most(&s[0]) {
        let rest = s.subrange(1, s.len() as int);
        lemma_insertion_bounds(rest, item);
        let n = insertion_point(rest, item);
        assert forall|i: int| 0 <= i < 1 + n implies !#[trigger] item.at_most(&s[i]) by {
            if i > 0 {
                assert(rest[i - 1] == s[i]);
            }
        }
        if n < rest.len() {
            assert(s[1 + n] == rest[n]);
        }
    }
}

/// Sorts a list; elements of equal rank keep their order.
pub fn sort<T: Ordered>(v: Vec<T>) -> (r: Vec<T>)
    ensures
        r@ == sorted_seq(v@),
        sorted(r@),
        r@.to_multiset() == v@.to_multiset(),
        r.len() == v.len(),
{
    let ghost input = v@;
    let mut rest = v;
    let mut out: Vec<T> = Vec::new();
    assert(input.subrange(input.len() as int, input.len() as int) =~= Seq::<T>::empty());
    // Takes elements from the end, so that an element goes before the equal
    // ones already placed.
    while rest.len() > 0
        invariant
            rest.len() <= input.len(),
            rest@ == input.subrange(0, rest.len() as int),
            out@ == sorted_seq(input.subrange(rest.len() as int, input.len() as int)),
        decreases rest.len(),
    {
        let ghost placed = out@;
        let ghost n = rest.len() as int;
        let item = rest.pop().unwrap();
        let mut at: usize = 0;
        while at < out.len() && !item.is_at_most(&out[at])
            invariant
                at <= out.len(),
                forall|i: int| 0 <= i < at ==> !#[trigger] item.at_most(&out@[i]),
            decreases out.len() - at,
        {
            at += 1;
        }
        proof {
            lemma_insertion_point(placed, item, at as int);
            let tail = input.subrange(n - 1, input.len() as int);
            assert(tail.subrange(1, tail.len() as int) =~= input.subrange(
                n,
                input.len() as int,
            ));
            assert(item == input[n - 1]);
        }
        out.insert(at, item);
        assert(rest@ =~= input.subrange(0, n - 1));
    }
    proof {
        assert(input.subrange(0, input.len() as int) =~= input);
        lemma_sorted_seq(input);
    }
    out
}

proof fn lemma_insert_sorted<T: Ordered>(s: Seq<T>, n: int, item: T)
    requires
        sorted(s),
        0 <= n <= s.len(),
        forall|i: int| 0 <= i < n ==> !#[trigger] item.at_most(&s[i]),
        n < s.len() ==> item.at_most(&s[n]),
    ensures
        sorted(s.insert(n, item)),
{
    let t = s.insert(n, item);
    assert forall|i: int, j: int|
        #![trigger t[i], t[j]]
        0 <= i <= j < t.len() implies t[i].at_most(&t[j]) by {
        if i == n && j == n {
            T::order_total(&item, &item);
        } else if i == n {
            assert(t[j] == s[j - 1]);
            assert(s[n].at_most(&s[j - 1]));
            T::order_transitive(&item, &s[n], &s[j - 1]);
        } else if j == n {
            assert(t[i] == s[i]);
            T::order_total(&item, &s[i]);
        } else {
            let a = if i < n {
                i
            } else {
                i - 1
            };
            let b = if j < n {
                j
            } else {
                j - 1
            };
            assert(t[i] == s[a]);
            assert(t[j] == s[b]);
            assert(s[a].at_most(&s[b]));
        }
    }
}

/// Lists that hold the same elements have the same images.
pub proof fn lemma_same_images<A, B>(a: Seq<A>, b: Seq<A>, f: spec_fn(A) -> B)
    requires
        a.to_multiset() == b.to_multiset(),
    ensures
        a.map_values(f).to_multiset() == b.map_values(f).to_multiset(),
    decreases a.len(),
{
    broadcast use group_to_multiset_ensures;

    if a.len() == 0 {
        assert(a.to_multiset().len() == 0);
        assert(b.to_multiset().len() == b.len());
        assert(a.map_values(f) =~= b.map_values(f));
    } else {
        let x = a.last();
        assert(a.to_multiset().count(x) > 0) by {
            assert(a.contains(x));
        }
        assert(b.contains(x));
        let k = choose|k: int| 0 <= k < b.len() && b[k] == x;
        let rest = b.remove(k);
        assert(b =~= rest.insert(k, x));
        assert(a =~= a.drop_last().push(x));
        assert(a.drop_last().to_multiset() =~= a.to_multiset().remove(x));
        assert(rest.to_multiset() =~= b.to_multiset().remove(x));
        lemma_same_images(a.drop_last(), rest, f);
        assert(a.map_values(f) =~= a.drop_last().map_values(f).push(f(x)));
        assert(b.map_values(f) =~= rest.map_values(f).insert(k, f(x)));
    }
}

/// The position of the first element that `item` may stand before.
pub open spec fn insertion_point_by<T>(s: Seq<T>, item: T, at_most: spec_fn(T, T) -> bool) -> int
    decreases s.len(),
{
    if s.len() == 0 || at_most(item, s[0]) {
        0
    } else {
        1 + insertion_point_by(s.subrange(1, s.len() as int), item, at_most)
    }
}

/// The elements of `s` in the order of a relation; elements of equal rank keep
/// their order.
pub open spec fn sorted_by<T>(s: Seq<T>, at_most: spec_fn(T, T) -> bool) -> Seq<T>
    decreases s.len(),
{
    if s.len() == 0 {
        s
    } else {
        let rest = sorted_by(s.subrange(1, s.len() as int), at_most);
        rest.insert(insertion_point_by(rest, s[0], at_most), s[0])
    }
}

proof fn lemma_insertion_point_by<T: Ordered, M>(
    s: Seq<T>,
    item: T,
    f: spec_fn(T) -> M,
    at_most: spec_fn(M, M) -> bool,
)
    requires
        forall|i: int|
            0 <= i < s.len() ==> #[trigger] item.at_most(&s[i]) == at_most(f(item), f(s[i])),
    ensures
        insertion_point_by(s.map_values(f), f(item), at_most) == insertion_point(s, item),
    decreases s.len(),
{
    if s.len() > 0 {
        assert(item.at_most(&s[0]) == at_most(f(item), f(s[0])));
        let rest = s.subrange(1, s.len() as int);
        assert(s.map_values(f).subrange(1, s.len() as int) =~= rest.map_values(f));
        assert forall|i: int| 0 <= i < rest.len() implies #[trigger] item.at_most(&rest[i])
            == at_most(f(item), f(rest[i])) by {
            assert(item.at_most(&s[i + 1]) == at_most(f(item), f(s[i + 1])));
        }
        lemma_insertion_point_by(rest, item, f, at_most);
    }
}

/// Sorting commutes with a view that keeps the order.
pub proof fn lemma_sorted_by<T: Ordered, M>(
    s: Seq<T>,
    f: spec_fn(T) -> M,
    at_most: spec_fn(M, M) -> bool,
)
    requires
        forall|x: T, y: T|
            s.contains(x) && s.contains(y) ==> #[trigger] x.at_most(&y) == at_most(f(x), f(y)),
    ensures
        sorted_seq(s).map_values(f) == sorted_by(s.map_values(f), at_most),
    decreases s.len(),
{
    broadcast use group_to_multiset_ensures;

    if s.len() > 0 {
        let tail = s.subrange(1, s.len() as int);
        let item = s[0];
        assert(s.contains(item));
        assert forall|x: T, y: T| tail.contains(x) && tail.contains(y) implies #[trigger] x.at_most(
            &y,
        ) == at_most(f(x), f(y)) by {
            let i = choose|i: int| 0 <= i < tail.len() && tail[i] == x;
            let j = choose|j: int| 0 <= j < tail.len() && tail[j] == y;
            assert(s[i + 1] == x && s[j + 1] == y);
        }
        lemma_sorted_by(tail, f, at_most);
        lemma_sorted_seq(tail);
        let rest = sorted_seq(tail);
        assert(s.map_values(f).subrange(1, s.len() as int) =~= tail.map_values(f));
        assert forall|i: int| 0 <= i < rest.len() implies #[trigger] item.at_most(&rest[i])
            == at_most(f(item), f(rest[i])) by {
            assert(rest.contains(rest[i]));
            assert(rest.to_multiset().count(rest[i]) > 0);
            assert(tail.contains(rest[i]));
            let k = choose|k: int| 0 <= k < tail.len() && tail[k] == rest[i];
            assert(s[k + 1] == rest[i]);
        }
        lemma_insertion_point_by(rest, item, f, at_most);
        lemma_insertion_bounds(rest, item);
        let at = insertion_point(rest, item);
        assert(rest.insert(at, item).map_values(f) =~= rest.map_values(f).insert(at, f(item)));
    } else {
        assert(sorted_seq(s).map_values(f) =~= s.map_values(f));
    }
}

proof fn lemma_insertion_bounds_by<T>(s: Seq<T>, item: T, at_most: spec_fn(T, T) -> bool)
    ensures
        0 <= insertion_point_by(s, item, at_most) <= s.len(),
        forall|i: int|
            0 <= i < insertion_point_by(s, item, at_most) ==> !at_most(item, #[trigger] s[i]),
        insertion_point_by(s, item, at_most) < s.len() ==> at_most(
            item,
            s[insertion_point_by(s, item, at_most)],
        ),
    decreases s.len(),
{
    if s.len() > 0 && !at_most(item, s[0]) {
        let rest = s.subrange(1, s.len() as int);
        lemma_insertion_bounds_by(rest, item, at_most);
        let n = insertion_point_by(rest, item, at_most);
        assert forall|i: int| 0 <= i < 1 + n implies !at_most(item, #[trigger] s[i]) by {
            if i > 0 {
                assert(rest[i - 1] == s[i]);
            }
        }
        if n < rest.len() {
            assert(s[1 + n] == rest[n]);
        }
    }
}

/// Sorting by a relation keeps the elements.
pub proof fn lemma_sorted_by_permutes<T>(s: Seq<T>, at_most: spec_fn(T, T) -> bool)
    ensures
        sorted_by(s, at_most).to_multiset() == s.to_multiset(),
        sorted_by(s, at_most).len() == s.len(),
    decreases s.len(),
{
    broadcast use group_to_multiset_ensures;

    if s.len() > 0 {
        let tail = s.subrange(1, s.len() as int);
        lemma_sorted_by_permutes(tail, at_most);
        let rest = sorted_by(tail, at_most);
        lemma_insertion_bounds_by(rest, s[0], at_most);
        assert(s =~= tail.insert(0, s[0]));
    }
}

/// Whether a relation is a total preorder.
pub open spec fn is_preorder<T>(at_most: spec_fn(T, T) -> bool) -> bool {
    &&& forall|a: T, b: T| #[trigger] at_most(a, b) || at_most(b, a)
    &&& forall|a: T, b: T, c: T|
        #![trigger at_most(a, b), at_most(b, c)]
        at_most(a, b) && at_most(b, c) ==> at_most(a, c)
}

/// Sorting by a total preorder puts the elements in order.
pub proof fn lemma_sorted_by_in_order<T>(s: Seq<T>, at_most: spec_fn(T, T) -> bool)
    requires
        is_preorder(at_most),
    ensures
        forall|i: int, j: int|
            #![trigger sorted_by(s, at_most)[i], sorted_by(s, at_most)[j]]
            0 <= i < j < sorted_by(s, at_most).len() ==> at_most(
                sorted_by(s, at_most)[i],
                sorted_by(s, at_most)[j],
            ),
    decreases s.len(),
{
    if s.len() > 0 {
        let tail = s.subrange(1, s.len() as int);
        let item = s[0];
        lemma_sorted_by_in_order(tail, at_most);
        let rest = sorted_by(tail, at_most);
        lemma_insertion_bounds_by(rest, item, at_most);
        let n = insertion_point_by(rest, item, at_most);
        let out = rest.insert(n, item);
        assert(out == sorted_by(s, at_most));
        assert forall|i: int, j: int|
            #![trigger out[i], out[j]]
            0 <= i < j < out.len() implies at_most(out[i], out[j]) by {
            if j < n {
                assert(out[i] == rest[i] && out[j] == rest[j]);
            } else if j == n {
                assert(out[i] == rest[i] && out[j] == item);
                assert(!at_most(item, rest[i]));
                assert(at_most(rest[i], item) || at_most(item, rest[i]));
            } else {
                assert(out[j] == rest[j - 1]);
                if i < n {
                    assert(out[i] == rest[i]);
                } else if i > n {
                    assert(out[i] == rest[i - 1]);
                } else {
                    assert(out[i] == item);
                    assert(at_most(item, rest[n]));
                    if j - 1 > n {
                        assert(at_most(rest[n], rest[j - 1]));
                    }
                }
            }
        }
    }
}

/// What a filter keeps was there and passes.
pub proof fn lemma_filtered<T>(s: Seq<T>, keep: spec_fn(T) -> bool, i: int)
    requires
        0 <= i < s.filter(keep).len(),
    ensures
        s.contains(s.filter(keep)[i]),
        keep(s.filter(keep)[i]),
    decreases s.len(),
{
    reveal(Seq::filter);
    let init = s.drop_last();
    if i < init.filter(keep).len() {
        lemma_filtered(init, keep, i);
        let k = choose|k: int| 0 <= k < init.len() && init[k] == init.filter(keep)[i];
        assert(s[k] == s.filter(keep)[i]);
    } else {
        assert(s[s.len() - 1] == s.filter(keep)[i]);
    }
}

proof fn lemma_nothing_passes<T>(s: Seq<T>, keep: spec_fn(T) -> bool)
    requires
        forall|i: int| 0 <= i < s.len() ==> !keep(#[trigger] s[i]),
    ensures
        s.filter(keep) == Seq::<T>::empty(),
    decreases s.len(),
{
    reveal(Seq::filter);
    if s.len() > 0 {
        lemma_nothing_passes(s.drop_last(), keep);
        assert(!keep(s[s.len() - 1]));
    }
}

/// Elements of equal rank keep their order.
pub proof fn law_sorting_is_stable<T>(
    s: Seq<T>,
    at_most: spec_fn(T, T) -> bool,
    keep: spec_fn(T) -> bool,
)
    requires
        forall|a: T, b: T| keep(a) && keep(b) ==> #[trigger] at_most(a, b),
    ensures
        sorted_by(s, at_most).filter(keep) == s.filter(keep),
    decreases s.len(),
{
    if s.len() > 0 {
        let tail = s.subrange(1, s.len() as int);
        let item = s[0];
        let rest = sorted_by(tail, at_most);
        let n = insertion_point_by(rest, item, at_most);
        lemma_insertion_bounds_by(rest, item, at_most);
        law_sorting_is_stable(tail, at_most, keep);
        let front = rest.subrange(0, n);
        let back = rest.subrange(n, rest.len() as int);
        assert(rest =~= front + back);
        assert(sorted_by(s, at_most) =~= front + (seq![item] + back));
        assert(s =~= seq![item] + tail);
        Seq::filter_distributes_over_add(front, back, keep);
        Seq::filter_distributes_over_add(front, seq![item] + back, keep);
        Seq::filter_distributes_over_add(seq![item], back, keep);
        Seq::filter_distributes_over_add(seq![item], tail, keep);
        if keep(item) {
            assert forall|i: int| 0 <= i < front.len() implies !keep(#[trigger] front[i]) by {
                assert(front[i] == rest[i]);
                assert(!at_most(item, rest[i]));
            }
            lemma_nothing_passes(front, keep);
            assert(sorted_by(s, at_most).filter(keep) =~= s.filter(keep));
        } else {
            assert(seq![item].filter(keep) =~= Seq::<T>::empty()) by {
                lemma_nothing_passes(seq![item], keep);
            }
            assert(sorted_by(s, at_most).filter(keep) =~= s.filter(keep));
        }
    }
}

} // verus!
