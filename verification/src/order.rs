//! Stable ordering of a sequence by a strict order on its items.
//!
//! `before(a, b)` says that `a` must stand ahead of `b`. Items of which
//! neither is before the other keep the order in which they came.

use vstd::prelude::*;
use vstd::seq_lib::*;

verus! {

/// `sorted` with `x` put in ahead of its first item that is not before `x`.
pub open spec fn insert_front<T>(x: T, sorted: Seq<T>, before: spec_fn(T, T) -> bool) -> Seq<T>
    decreases sorted.len(),
{
    if sorted.len() == 0 || !before(sorted[0], x) {
        seq![x] + sorted
    } else {
        seq![sorted[0]] + insert_front(x, sorted.drop_first(), before)
    }
}

/// The items of `items` in stable order: each item, from the last to the
/// first, is put into the ordered rest ahead of every item that is not
/// before it.
pub open spec fn stable_sort<T>(items: Seq<T>, before: spec_fn(T, T) -> bool) -> Seq<T>
    decreases items.len(),
{
    if items.len() == 0 {
        Seq::empty()
    } else {
        insert_front(items[0], stable_sort(items.drop_first(), before), before)
    }
}

/// Whether no item of `items` stands behind one that it is before.
pub open spec fn is_ordered<T>(items: Seq<T>, before: spec_fn(T, T) -> bool) -> bool {
    forall|i: int, j: int| 0 <= i < j < items.len() ==> !before(items[j], items[i])
}

/// Whether neither of `a` and `b` is before the other.
pub open spec fn tied<T>(a: T, b: T, before: spec_fn(T, T) -> bool) -> bool {
    !before(a, b) && !before(b, a)
}

/// The test that picks the items tied with `r`.
pub open spec fn tied_with<T>(r: T, before: spec_fn(T, T) -> bool) -> spec_fn(T) -> bool {
    |y: T| tied(r, y, before)
}

/// Whether `before` is a strict weak order: nothing is before itself, the
/// relation is transitive, and so is its complement.
pub open spec fn strict_weak_order<T>(before: spec_fn(T, T) -> bool) -> bool {
    &&& forall|a: T| !#[trigger] before(a, a)
    &&& forall|a: T, b: T, c: T| #[trigger]
        before(a, b) && #[trigger] before(b, c) ==> before(a, c)
    &&& forall|a: T, b: T, c: T|
        !#[trigger] before(a, b) && !#[trigger] before(b, c) ==> !before(a, c)
}

/// Where the first `at` items of `sorted` are before `x` and the next one is
/// not, `insert_front` puts `x` at the position `at`.
pub proof fn insert_front_position<T>(
    x: T,
    sorted: Seq<T>,
    before: spec_fn(T, T) -> bool,
    at: int,
)
    requires
        0 <= at <= sorted.len(),
        forall|i: int| 0 <= i < at ==> before(sorted[i], x),
        at < sorted.len() ==> !before(sorted[at], x),
    ensures
        insert_front(x, sorted, before) == sorted.insert(at, x),
    decreases at,
{
    if at == 0 {
        assert(sorted.insert(0, x) =~= seq![x] + sorted);
    } else {
        let rest = sorted.drop_first();
        assert forall|i: int| 0 <= i < at - 1 implies before(rest[i], x) by {
            assert(rest[i] == sorted[i + 1]);
        }
        insert_front_position(x, rest, before, at - 1);
        assert(seq![sorted[0]] + rest.insert(at - 1, x) =~= sorted.insert(at, x));
    }
}

/// `insert_front` puts one item in: the result is one longer and holds the
/// same items as before, and `x`.
pub proof fn insert_front_items<T>(x: T, sorted: Seq<T>, before: spec_fn(T, T) -> bool)
    ensures
        insert_front(x, sorted, before).len() == sorted.len() + 1,
        insert_front(x, sorted, before).to_multiset() == sorted.to_multiset().insert(x),
    decreases sorted.len(),
{
    broadcast use to_multiset_insert;

    if sorted.len() == 0 || !before(sorted[0], x) {
        assert(seq![x] + sorted =~= sorted.insert(0, x));
    } else {
        let rest = sorted.drop_first();
        let placed = insert_front(x, rest, before);
        insert_front_items(x, rest, before);
        assert(seq![sorted[0]] + placed =~= placed.insert(0, sorted[0]));
        assert(sorted =~= rest.insert(0, sorted[0]));
        assert(placed.to_multiset().insert(sorted[0]) =~= rest.to_multiset().insert(
            sorted[0],
        ).insert(x));
    }
}

/// Sorting neither loses nor adds an item.
pub proof fn stable_sort_permutes<T>(items: Seq<T>, before: spec_fn(T, T) -> bool)
    ensures
        stable_sort(items, before).len() == items.len(),
        stable_sort(items, before).to_multiset() == items.to_multiset(),
    decreases items.len(),
{
    broadcast use to_multiset_insert;

    if items.len() == 0 {
        assert(items =~= Seq::<T>::empty());
    } else {
        let rest = items.drop_first();
        stable_sort_permutes(rest, before);
        insert_front_items(items[0], stable_sort(rest, before), before);
        assert(items =~= rest.insert(0, items[0]));
    }
}

/// `insert_front` keeps an ordered sequence ordered.
pub proof fn insert_front_ordered<T>(x: T, sorted: Seq<T>, before: spec_fn(T, T) -> bool)
    requires
        strict_weak_order(before),
        is_ordered(sorted, before),
    ensures
        is_ordered(insert_front(x, sorted, before), before),
    decreases sorted.len(),
{
    let out = insert_front(x, sorted, before);
    if sorted.len() == 0 || !before(sorted[0], x) {
        assert forall|i: int, j: int| 0 <= i < j < out.len() implies !before(out[j], out[i]) by {
            if i == 0 {
                // Nothing behind the head of `sorted` is before the head,
                // and the head is not before `x`.
                assert(out[j] == sorted[j - 1]);
                if j > 1 {
                    assert(!before(sorted[j - 1], sorted[0]));
                }
            } else {
                assert(out[i] == sorted[i - 1] && out[j] == sorted[j - 1]);
            }
        }
    } else {
        let rest = sorted.drop_first();
        assert(is_ordered(rest, before)) by {
            assert forall|i: int, j: int| 0 <= i < j < rest.len() implies !before(
                rest[j],
                rest[i],
            ) by {
                assert(rest[i] == sorted[i + 1] && rest[j] == sorted[j + 1]);
            }
        }
        let placed = insert_front(x, rest, before);
        insert_front_ordered(x, rest, before);
        insert_front_items(x, rest, before);
        assert forall|i: int, j: int| 0 <= i < j < out.len() implies !before(out[j], out[i]) by {
            if i == 0 {
                // What stands behind the head is `x`, which the head is
                // before, or an item of `sorted` behind the head.
                let y = placed[j - 1];
                assert(out[j] == y);
                assert(placed.to_multiset().count(y) > 0) by {
                    broadcast use to_multiset_contains;

                    assert(placed.contains(y));
                }
                if y != x {
                    assert(rest.to_multiset().count(y) > 0);
                    assert(rest.contains(y)) by {
                        broadcast use to_multiset_contains;

                    }
                    let k = choose|k: int| 0 <= k < rest.len() && rest[k] == y;
                    assert(sorted[k + 1] == y);
                }
            } else {
                assert(out[i] == placed[i - 1] && out[j] == placed[j - 1]);
            }
        }
    }
}

/// The result of `stable_sort` is ordered.
pub proof fn stable_sort_ordered<T>(items: Seq<T>, before: spec_fn(T, T) -> bool)
    requires
        strict_weak_order(before),
    ensures
        is_ordered(stable_sort(items, before), before),
    decreases items.len(),
{
    if items.len() > 0 {
        stable_sort_ordered(items.drop_first(), before);
        insert_front_ordered(items[0], stable_sort(items.drop_first(), before), before);
    }
}

/// `insert_front` puts `x` ahead of the items tied with it: among the items
/// tied with any `r`, `x` comes first and the others keep their order.
pub proof fn insert_front_stable<T>(x: T, sorted: Seq<T>, before: spec_fn(T, T) -> bool, r: T)
    requires
        strict_weak_order(before),
    ensures
        insert_front(x, sorted, before).filter(tied_with(r, before)) == (seq![x] + sorted).filter(
            tied_with(r, before),
        ),
    decreases sorted.len(),
{
    let class = tied_with(r, before);
    if sorted.len() == 0 || !before(sorted[0], x) {
    } else {
        let head = seq![sorted[0]];
        let rest = sorted.drop_first();
        insert_front_stable(x, rest, before, r);
        Seq::filter_distributes_over_add(head, insert_front(x, rest, before), class);
        Seq::filter_distributes_over_add(seq![x], rest, class);
        Seq::filter_distributes_over_add(seq![x], sorted, class);
        Seq::filter_distributes_over_add(head, rest, class);
        assert(sorted =~= head + rest);
        // The head is before `x`, so the two are not tied with one `r`.
        assert(!(class(sorted[0]) && class(x)));
        assert(head.filter(class) =~= if class(sorted[0]) {
            head
        } else {
            Seq::empty()
        }) by {
            reveal_with_fuel(Seq::filter, 2);
            assert(head.drop_last() =~= Seq::<T>::empty());
        }
        assert(seq![x].filter(class) =~= if class(x) {
            seq![x]
        } else {
            Seq::empty()
        }) by {
            reveal_with_fuel(Seq::filter, 2);
            assert(seq![x].drop_last() =~= Seq::<T>::empty());
        }
        assert(insert_front(x, sorted, before).filter(class) =~= (seq![x] + sorted).filter(class));
    }
}

/// Sorting is stable: the items that are tied with any `r` come out in the
/// order in which they went in.
pub proof fn stable_sort_stable<T>(items: Seq<T>, before: spec_fn(T, T) -> bool, r: T)
    requires
        strict_weak_order(before),
    ensures
        stable_sort(items, before).filter(tied_with(r, before)) == items.filter(
            tied_with(r, before),
        ),
    decreases items.len(),
{
    let class = tied_with(r, before);
    if items.len() == 0 {
        assert(items =~= Seq::<T>::empty());
    } else {
        let rest = items.drop_first();
        let sorted = stable_sort(rest, before);
        stable_sort_stable(rest, before, r);
        insert_front_stable(items[0], sorted, before, r);
        Seq::filter_distributes_over_add(seq![items[0]], sorted, class);
        Seq::filter_distributes_over_add(seq![items[0]], rest, class);
        assert(items =~= seq![items[0]] + rest);
    }
}

/// The items that pass a test are the first item, if it passes, and those
/// of the rest that pass.
pub proof fn filter_head<T>(items: Seq<T>, test: spec_fn(T) -> bool)
    requires
        items.len() > 0,
    ensures
        items.filter(test) == if test(items[0]) {
            seq![items[0]] + items.drop_first().filter(test)
        } else {
            items.drop_first().filter(test)
        },
{
    let head = seq![items[0]];
    Seq::filter_distributes_over_add(head, items.drop_first(), test);
    assert(items =~= head + items.drop_first());
    assert(head.filter(test) =~= if test(items[0]) {
        head
    } else {
        Seq::empty()
    }) by {
        reveal_with_fuel(Seq::filter, 2);
        assert(head.drop_last() =~= Seq::<T>::empty());
    }
    if !test(items[0]) {
        assert(Seq::<T>::empty() + items.drop_first().filter(test) =~= items.drop_first().filter(
            test,
        ));
    }
}

/// Where some item passes a test, the first that passes is the first of
/// those picked by the test.
pub proof fn filter_first<T>(items: Seq<T>, test: spec_fn(T) -> bool) -> (at: int)
    requires
        items.filter(test).len() > 0,
    ensures
        0 <= at < items.len(),
        test(items[at]),
        items[at] == items.filter(test)[0],
        forall|i: int| 0 <= i < at ==> !test(items[i]),
    decreases items.len(),
{
    if items.len() == 0 {
        reveal(Seq::filter);
        assert(false);
        0
    } else {
        filter_head(items, test);
        if test(items[0]) {
            0
        } else {
            let rest = items.drop_first();
            let at = filter_first(rest, test);
            assert forall|i: int| 0 <= i < at + 1 implies !test(items[i]) by {
                if i > 0 {
                    assert(items[i] == rest[i - 1]);
                }
            }
            at + 1
        }
    }
}

/// A stable order is unique: two ordered sequences that hold, for every
/// item `r`, the same items tied with `r` in the same order are equal.
pub proof fn stable_order_unique<T>(a: Seq<T>, b: Seq<T>, before: spec_fn(T, T) -> bool)
    requires
        strict_weak_order(before),
        is_ordered(a, before),
        is_ordered(b, before),
        forall|r: T| #[trigger] a.filter(tied_with(r, before)) == b.filter(tied_with(r, before)),
    ensures
        a == b,
    decreases a.len(),
{
    if a.len() == 0 || b.len() == 0 {
        // An item of one sequence is tied with itself, so the other one
        // holds an item too.
        if a.len() > 0 {
            filter_head(a, tied_with(a[0], before));
            assert(b.filter(tied_with(a[0], before)).len() > 0);
            reveal(Seq::filter);
        }
        if b.len() > 0 {
            filter_head(b, tied_with(b[0], before));
            assert(a.filter(tied_with(b[0], before)).len() > 0);
            reveal(Seq::filter);
        }
        assert(a =~= b);
    } else {
        let x = a[0];
        let class = tied_with(x, before);
        filter_head(a, class);
        assert(a.filter(class)[0] == x);
        let j = filter_first(b, class);
        assert(b[j] == x);
        if j > 0 {
            // The head of `b` is before `x`, yet `a` holds an item tied
            // with that head, which is not before `x`, the head of `a`.
            assert(!before(b[j], b[0]));
            assert(!class(b[0]));
            assert(before(b[0], x));
            let other = tied_with(b[0], before);
            filter_head(b, other);
            assert(a.filter(other).len() > 0);
            let i = filter_first(a, other);
            if i > 0 {
                assert(!before(a[i], a[0]));
            }
            assert(!before(b[0], a[i]));
            assert(!before(a[i], x));
            assert(false);
        }
        let rest_a = a.drop_first();
        let rest_b = b.drop_first();
        assert(is_ordered(rest_a, before)) by {
            assert forall|i: int, k: int| 0 <= i < k < rest_a.len() implies !before(
                rest_a[k],
                rest_a[i],
            ) by {
                assert(rest_a[i] == a[i + 1] && rest_a[k] == a[k + 1]);
            }
        }
        assert(is_ordered(rest_b, before)) by {
            assert forall|i: int, k: int| 0 <= i < k < rest_b.len() implies !before(
                rest_b[k],
                rest_b[i],
            ) by {
                assert(rest_b[i] == b[i + 1] && rest_b[k] == b[k + 1]);
            }
        }
        assert forall|r: T| #[trigger]
            rest_a.filter(tied_with(r, before)) == rest_b.filter(tied_with(r, before)) by {
            let test = tied_with(r, before);
            filter_head(a, test);
            filter_head(b, test);
            let u = rest_a.filter(test);
            let v = rest_b.filter(test);
            assert(a.filter(test) == b.filter(test));
            if test(x) {
                assert(seq![x] + u == seq![x] + v);
                assert(u.len() == v.len()) by {
                    assert((seq![x] + u).len() == u.len() + 1);
                    assert((seq![x] + v).len() == v.len() + 1);
                }
                assert forall|i: int| 0 <= i < u.len() implies u[i] == v[i] by {
                    assert((seq![x] + u)[i + 1] == u[i]);
                    assert((seq![x] + v)[i + 1] == v[i]);
                }
                assert(u =~= v);
            }
        }
        stable_order_unique(rest_a, rest_b, before);
        assert(a =~= seq![x] + rest_a);
        assert(b =~= seq![x] + rest_b);
    }
}

/// `stable_sort` is the stable order: an ordered sequence that holds, for
/// every item `r`, the items of `items` tied with `r` in their order, is the
/// result of `stable_sort`.
pub proof fn stable_sort_is_the_stable_order<T>(
    items: Seq<T>,
    ordered: Seq<T>,
    before: spec_fn(T, T) -> bool,
)
    requires
        strict_weak_order(before),
        is_ordered(ordered, before),
        forall|r: T| #[trigger]
            ordered.filter(tied_with(r, before)) == items.filter(tied_with(r, before)),
    ensures
        ordered == stable_sort(items, before),
{
    let sorted = stable_sort(items, before);
    stable_sort_ordered(items, before);
    assert forall|r: T| #[trigger]
        ordered.filter(tied_with(r, before)) == sorted.filter(tied_with(r, before)) by {
        stable_sort_stable(items, before, r);
    }
    stable_order_unique(ordered, sorted, before);
}

} // verus!
