//! Putting network interfaces in the order of their names.
//!
//! Names are compared character by character, by code point; a name that is
//! a proper prefix of another comes first. Interfaces with one name keep
//! their order.

use crate::label::chars_of;
use crate::order::{
    insert_front_position, is_ordered, stable_sort, stable_sort_ordered, stable_sort_permutes,
    strict_weak_order,
};
use crate::snapshot::{Network, NetworkModel};
use vstd::prelude::*;

verus! {

/// Whether what `a` holds from `from` on comes before what `b` holds from
/// `from` on, in lexicographic order.
pub open spec fn text_before_from(a: Seq<char>, b: Seq<char>, from: int) -> bool
    decreases a.len() - from,
{
    if from >= b.len() {
        false
    } else if from >= a.len() {
        true
    } else if a[from] != b[from] {
        a[from] < b[from]
    } else {
        text_before_from(a, b, from + 1)
    }
}

/// Whether `a` comes strictly before `b` in lexicographic order.
pub open spec fn text_before(a: Seq<char>, b: Seq<char>) -> bool {
    text_before_from(a, b, 0)
}

/// The order of interfaces: by name, ascending.
pub open spec fn name_before() -> spec_fn(NetworkModel, NetworkModel) -> bool {
    |a: NetworkModel, b: NetworkModel| text_before(a.name, b.name)
}

/// The interfaces in the order of their names.
pub open spec fn sorted_networks(networks: Seq<NetworkModel>) -> Seq<NetworkModel> {
    stable_sort(networks, name_before())
}

/// Whether `a` and `b` agree on their first `at` characters and `a` is the
/// smaller one at the position `at`: `a` ends there and `b` does not, or the
/// character of `a` has the smaller code point.
pub open spec fn decided_at(a: Seq<char>, b: Seq<char>, at: int) -> bool {
    &&& 0 <= at <= a.len()
    &&& at <= b.len()
    &&& forall|i: int| 0 <= i < at ==> a[i] == b[i]
    &&& (at == a.len() && at < b.len()) || (at < a.len() && at < b.len() && a[at] < b[at])
}

/// Where two texts agree on their first `from` characters, the first comes
/// before the second exactly if the order is decided in its favour at some
/// position from `from` on.
pub proof fn text_before_is_decided(a: Seq<char>, b: Seq<char>, from: int)
    requires
        0 <= from <= a.len(),
        from <= b.len(),
        forall|i: int| 0 <= i < from ==> a[i] == b[i],
    ensures
        text_before_from(a, b, from) <==> exists|at: int| from <= at && decided_at(a, b, at),
    decreases a.len() - from,
{
    if from >= b.len() || from >= a.len() || a[from] != b[from] {
        if text_before_from(a, b, from) {
            assert(decided_at(a, b, from));
        }
        if exists|at: int| from <= at && decided_at(a, b, at) {
            let at = choose|at: int| from <= at && decided_at(a, b, at);
            if at > from {
                assert(a[from] == b[from]);
            }
        }
    } else {
        text_before_is_decided(a, b, from + 1);
        if exists|at: int| from <= at && decided_at(a, b, at) {
            let at = choose|at: int| from <= at && decided_at(a, b, at);
            assert(from + 1 <= at && decided_at(a, b, at));
        }
        if text_before_from(a, b, from + 1) {
            let at = choose|at: int| from + 1 <= at && decided_at(a, b, at);
            assert(from <= at && decided_at(a, b, at));
        }
    }
}

/// A text comes before another exactly if it is a proper prefix of it, or
/// has the smaller character at the first position where the two differ.
pub proof fn text_before_is_lexicographic(a: Seq<char>, b: Seq<char>)
    ensures
        text_before(a, b) <==> exists|at: int| decided_at(a, b, at),
{
    text_before_is_decided(a, b, 0);
    if exists|at: int| decided_at(a, b, at) {
        let at = choose|at: int| decided_at(a, b, at);
        assert(0 <= at && decided_at(a, b, at));
    }
    if text_before(a, b) {
        let at = choose|at: int| 0 <= at && decided_at(a, b, at);
        assert(decided_at(a, b, at));
    }
}

/// No text comes before itself.
pub proof fn text_order_irreflexive(a: Seq<char>, from: int)
    requires
        0 <= from,
    ensures
        !text_before_from(a, a, from),
    decreases a.len() - from,
{
    if from < a.len() {
        text_order_irreflexive(a, from + 1);
    }
}

/// What comes before a text that comes before a third comes before the
/// third.
pub proof fn text_order_transitive(a: Seq<char>, b: Seq<char>, c: Seq<char>, from: int)
    requires
        0 <= from,
        text_before_from(a, b, from),
        text_before_from(b, c, from),
    ensures
        text_before_from(a, c, from),
    decreases a.len() - from,
{
    if from < a.len() && a[from] == b[from] && b[from] == c[from] {
        text_order_transitive(a, b, c, from + 1);
    }
}

/// What comes before a text comes before any other text, or that one comes
/// before the text.
pub proof fn text_order_splits(a: Seq<char>, b: Seq<char>, c: Seq<char>, from: int)
    requires
        0 <= from,
        text_before_from(a, c, from),
    ensures
        text_before_from(a, b, from) || text_before_from(b, c, from),
    decreases c.len() - from,
{
    if from < a.len() && from < b.len() && a[from] == b[from] && b[from] == c[from] {
        text_order_splits(a, b, c, from + 1);
    }
}

/// The order of interfaces by name is a strict weak order.
pub proof fn name_order_is_strict_weak()
    ensures
        strict_weak_order(name_before()),
{
    let before = name_before();
    assert forall|a: NetworkModel| !#[trigger] before(a, a) by {
        text_order_irreflexive(a.name, 0);
    }
    assert forall|a: NetworkModel, b: NetworkModel, c: NetworkModel| #[trigger]
        before(a, b) && #[trigger] before(b, c) implies before(a, c) by {
        text_order_transitive(a.name, b.name, c.name, 0);
    }
    assert forall|a: NetworkModel, b: NetworkModel, c: NetworkModel|
        !#[trigger] before(a, b) && !#[trigger] before(b, c) implies !before(a, c) by {
        if before(a, c) {
            text_order_splits(a.name, b.name, c.name, 0);
        }
    }
}

/// The sorted interfaces are the given ones, and none of them stands behind
/// one that its name comes before.
pub proof fn sorted_networks_ascending(networks: Seq<NetworkModel>)
    ensures
        sorted_networks(networks).len() == networks.len(),
        sorted_networks(networks).to_multiset() == networks.to_multiset(),
        is_ordered(sorted_networks(networks), name_before()),
{
    name_order_is_strict_weak();
    stable_sort_permutes(networks, name_before());
    stable_sort_ordered(networks, name_before());
}

/// Whether `a` comes strictly before `b` in lexicographic order.
pub fn precedes(a: &str, b: &str) -> (before: bool)
    ensures
        before == text_before(a@, b@),
{
    let x = chars_of(a);
    let y = chars_of(b);
    let mut i: usize = 0;
    loop
        invariant
            i <= x.len(),
            i <= y.len(),
            x@ == a@,
            y@ == b@,
            text_before(a@, b@) == text_before_from(a@, b@, i as int),
        decreases x.len() - i,
    {
        if i >= y.len() {
            return false;
        }
        if i >= x.len() {
            return true;
        }
        if x[i] != y[i] {
            return x[i] < y[i];
        }
        i = i + 1;
    }
}

/// Sorts interfaces by name; interfaces with one name keep their order.
pub fn sort_by_name(networks: Vec<Network>) -> (sorted: Vec<Network>)
    ensures
        sorted.deep_view() == sorted_networks(networks.deep_view()),
{
    let mut rest = networks;
    let mut sorted: Vec<Network> = Vec::new();
    let ghost models = networks.deep_view();
    assert(models.subrange(models.len() as int, models.len() as int) =~= Seq::<
        NetworkModel,
    >::empty());
    assert(rest.deep_view() =~= models.subrange(0, models.len() as int));
    while rest.len() > 0
        invariant
            rest.len() <= models.len(),
            rest.deep_view() == models.subrange(0, rest.len() as int),
            sorted.len() + rest.len() == models.len(),
            sorted.deep_view() == stable_sort(
                models.subrange(rest.len() as int, models.len() as int),
                name_before(),
            ),
        decreases rest.len(),
    {
        let ghost k = rest.len() as int;
        let ghost rest_before = rest.deep_view();
        let network = rest.pop().unwrap();
        let ghost x = network@;
        proof {
            assert(x == rest_before[k - 1]);
            assert(x == models[k - 1]);
            assert(rest.deep_view() =~= models.subrange(0, k - 1));
        }
        let mut at: usize = 0;
        while at < sorted.len() && precedes(sorted[at].name.as_str(), network.name.as_str())
            invariant
                at <= sorted.len(),
                x == network@,
                forall|i: int| 0 <= i < at ==> name_before()(sorted.deep_view()[i], x),
            decreases sorted.len() - at,
        {
            at = at + 1;
        }
        let ghost sorted_before = sorted.deep_view();
        proof {
            if at < sorted.len() {
                assert(!name_before()(sorted_before[at as int], x));
            }
            insert_front_position(x, sorted_before, name_before(), at as int);
            let tail = models.subrange(k - 1, models.len() as int);
            assert(tail.drop_first() =~= models.subrange(k, models.len() as int));
            assert(tail[0] == x);
        }
        sorted.insert(at, network);
        assert(sorted.deep_view() =~= sorted_before.insert(at as int, x));
    }
    assert(models.subrange(0, models.len() as int) =~= models);
    sorted
}

} // verus!
