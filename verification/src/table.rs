//! Sets kept in order, and tables that remember the order of arrival.

use vstd::prelude::*;

use crate::order::{Alike, Ranked};

verus! {

// --- ordered sets -------------------------------------------------------

/// Strictly ascending, so nothing occurs twice.
pub open spec fn ascending<T: Ranked>(s: Seq<T::V>) -> bool {
    forall|i: int, j: int| 0 <= i < j < s.len() ==> T::before(#[trigger] s[i], #[trigger] s[j])
}

/// How many of the leading items come before `x`.
pub open spec fn leading<T: Ranked>(s: Seq<T::V>, x: T::V) -> nat
    decreases s.len(),
{
    if s.len() == 0 || !T::before(s[0], x) {
        0
    } else {
        1 + leading::<T>(s.drop_first(), x)
    }
}

/// The items with `x` among them, in its place.
pub open spec fn with_item<T: Ranked>(s: Seq<T::V>, x: T::V) -> Seq<T::V> {
    if s.contains(x) {
        s
    } else {
        s.insert(leading::<T>(s, x) as int, x)
    }
}

/// The items without `x`.
pub open spec fn without_item<A>(s: Seq<A>, x: A) -> Seq<A> {
    s.filter(|y: A| y != x)
}

pub proof fn without_item_filters<A>(s: Seq<A>, x: A, others: spec_fn(A) -> bool)
    requires
        forall|y: A| #[trigger] others(y) == (y != x),
    ensures
        without_item(s, x) == s.filter(others),
{
    assert((|y: A| y != x) =~= others);
}

/// All of `items`, each once, in order.
pub open spec fn in_order<T: Ranked>(items: Seq<T::V>) -> Seq<T::V>
    decreases items.len(),
{
    if items.len() == 0 {
        Seq::empty()
    } else {
        with_item::<T>(in_order::<T>(items.drop_last()), items.last())
    }
}

pub proof fn leading_splits<T: Ranked>(s: Seq<T::V>, x: T::V)
    requires
        ascending::<T>(s),
    ensures
        leading::<T>(s, x) <= s.len(),
        forall|i: int| 0 <= i < leading::<T>(s, x) ==> T::before(#[trigger] s[i], x),
        leading::<T>(s, x) < s.len() ==> !T::before(s[leading::<T>(s, x) as int], x),
    decreases s.len(),
{
    if s.len() > 0 && T::before(s[0], x) {
        let rest = s.drop_first();
        assert forall|i: int, j: int| 0 <= i < j < rest.len() implies T::before(
            #[trigger] rest[i],
            #[trigger] rest[j],
        ) by {
            assert(rest[i] == s[i + 1]);
            assert(rest[j] == s[j + 1]);
        }
        leading_splits::<T>(rest, x);
        assert forall|i: int| 0 <= i < leading::<T>(s, x) implies T::before(
            #[trigger] s[i],
            x,
        ) by {
            if i > 0 {
                assert(s[i] == rest[i - 1]);
            }
        }
        if leading::<T>(s, x) < s.len() {
            assert(s[leading::<T>(s, x) as int] == rest[leading::<T>(rest, x) as int]);
        }
    }
}

/// Adding an item keeps the order, and adds that item and nothing else.
pub proof fn with_item_keeps_order<T: Ranked>(s: Seq<T::V>, x: T::V)
    requires
        ascending::<T>(s),
    ensures
        ascending::<T>(with_item::<T>(s, x)),
        forall|y: T::V| #[trigger]
            with_item::<T>(s, x).contains(y) <==> s.contains(y) || y == x,
{
    if !s.contains(x) {
        leading_splits::<T>(s, x);
        let p = leading::<T>(s, x) as int;
        let r = s.insert(p, x);
        assert forall|i: int| p <= i < s.len() implies T::before(x, #[trigger] s[i]) by {
            T::distinct_values_are_ordered(s[p], x);
            if s[p] == x {
                assert(s.contains(x));
            }
            assert(T::before(x, s[p]));
            if i > p {
                T::precedence_chains(x, s[p], s[i]);
            }
        }
        assert forall|i: int, j: int| 0 <= i < j < r.len() implies T::before(
            #[trigger] r[i],
            #[trigger] r[j],
        ) by {
            let a = if i < p { i } else { i - 1 };
            let b = if j < p { j } else { j - 1 };
            if i == p {
                assert(r[j] == s[j - 1]);
            } else if j == p {
                assert(r[i] == s[i]);
            } else {
                assert(r[i] == s[a]);
                assert(r[j] == s[b]);
            }
        }
        assert forall|y: T::V| #[trigger] r.contains(y) <==> s.contains(y) || y == x by {
            if r.contains(y) {
                let k = choose|k: int| 0 <= k < r.len() && r[k] == y;
                if k < p {
                    assert(s[k] == y);
                } else if k > p {
                    assert(s[k - 1] == y);
                }
            }
            if s.contains(y) {
                let k = choose|k: int| 0 <= k < s.len() && s[k] == y;
                if k < p {
                    assert(r[k] == y);
                } else {
                    assert(r[k + 1] == y);
                }
            }
            if y == x {
                assert(r[p] == y);
            }
        }
    }
}

/// Sorting lists every item once and nothing else.
pub proof fn in_order_lists_each_once<T: Ranked>(items: Seq<T::V>)
    ensures
        ascending::<T>(in_order::<T>(items)),
        forall|y: T::V| #[trigger] in_order::<T>(items).contains(y) <==> items.contains(y),
    decreases items.len(),
{
    if items.len() > 0 {
        in_order_lists_each_once::<T>(items.drop_last());
        with_item_keeps_order::<T>(in_order::<T>(items.drop_last()), items.last());
        assert forall|y: T::V| #[trigger] in_order::<T>(items).contains(y) <==> items.contains(
            y,
        ) by {
            if items.contains(y) && y != items.last() {
                let k = choose|k: int| 0 <= k < items.len() && items[k] == y;
                assert(items.drop_last()[k] == y);
            }
            if items.drop_last().contains(y) {
                let k = choose|k: int| 0 <= k < items.drop_last().len() && items.drop_last()[k]
                    == y;
                assert(items[k] == y);
            }
            if y == items.last() {
                assert(items[items.len() - 1] == y);
            }
        }
    }
}

/// Filtering an ascending sequence leaves it ascending.
pub proof fn filtering_keeps_order<T: Ranked>(s: Seq<T::V>, keep: spec_fn(T::V) -> bool)
    requires
        ascending::<T>(s),
    ensures
        ascending::<T>(s.filter(keep)),
        forall|y: T::V| #[trigger] s.filter(keep).contains(y) <==> s.contains(y) && keep(y),
    decreases s.len(),
{
    reveal(Seq::filter);
    if s.len() > 0 {
        let front = s.drop_last();
        filtering_keeps_order::<T>(front, keep);
        let kept = front.filter(keep);
        assert forall|y: T::V| kept.contains(y) implies T::before(y, s.last()) by {
            assert(front.contains(y));
            let k = choose|k: int| 0 <= k < front.len() && front[k] == y;
            assert(s[k] == y);
        }
        assert forall|i: int, j: int| 0 <= i < j < s.filter(keep).len() implies T::before(
            #[trigger] s.filter(keep)[i],
            #[trigger] s.filter(keep)[j],
        ) by {
            if keep(s.last()) {
                assert(s.filter(keep) == kept.push(s.last()));
                assert(kept.contains(kept[i]));
            }
        }
        assert forall|y: T::V| #[trigger] s.filter(keep).contains(y) <==> s.contains(y) && keep(
            y,
        ) by {
            let all = s.filter(keep);
            if all.contains(y) {
                let k = choose|k: int| 0 <= k < all.len() && all[k] == y;
                if k < kept.len() {
                    assert(kept[k] == y);
                    assert(kept.contains(y));
                    let m = choose|m: int| 0 <= m < front.len() && front[m] == y;
                    assert(s[m] == y);
                } else {
                    assert(s[s.len() - 1] == y);
                }
            }
            if s.contains(y) && keep(y) {
                let k = choose|k: int| 0 <= k < s.len() && s[k] == y;
                if k < front.len() {
                    assert(front[k] == y);
                    assert(kept.contains(y));
                    let m = choose|m: int| 0 <= m < kept.len() && kept[m] == y;
                    assert(all[m] == y);
                } else {
                    assert(all[all.len() - 1] == y);
                }
            }
        }
    }
}

/// Filtering keeps what it is asked to keep, and nothing else.
pub proof fn filter_members<A>(s: Seq<A>, keep: spec_fn(A) -> bool)
    ensures
        forall|y: A| #[trigger] s.filter(keep).contains(y) <==> s.contains(y) && keep(y),
    decreases s.len(),
{
    reveal(Seq::filter);
    if s.len() > 0 {
        let front = s.drop_last();
        let kept = front.filter(keep);
        let all = s.filter(keep);
        filter_members(front, keep);
        assert forall|y: A| #[trigger] all.contains(y) <==> s.contains(y) && keep(y) by {
            if all.contains(y) {
                let k = choose|k: int| 0 <= k < all.len() && all[k] == y;
                if k < kept.len() {
                    assert(kept[k] == y);
                    assert(kept.contains(y));
                    let m = choose|m: int| 0 <= m < front.len() && front[m] == y;
                    assert(s[m] == y);
                } else {
                    assert(s[s.len() - 1] == y);
                }
            }
            if s.contains(y) && keep(y) {
                let k = choose|k: int| 0 <= k < s.len() && s[k] == y;
                if k < front.len() {
                    assert(front[k] == y);
                    assert(kept.contains(y));
                    let m = choose|m: int| 0 <= m < kept.len() && kept[m] == y;
                    assert(all[m] == y);
                } else {
                    assert(all[all.len() - 1] == y);
                }
            }
        }
    }
}

/// What filtering does to one more item at the end.
pub proof fn filter_one_more<A>(s: Seq<A>, n: int, keep: spec_fn(A) -> bool)
    requires
        0 <= n < s.len(),
    ensures
        s.take(n + 1).filter(keep) == if keep(s[n]) {
            s.take(n).filter(keep).push(s[n])
        } else {
            s.take(n).filter(keep)
        },
{
    reveal(Seq::filter);
    assert(s.take(n + 1).drop_last() =~= s.take(n));
    assert(s.take(n + 1).last() == s[n]);
}

/// A set whose members are listed in ascending order.
#[derive(Debug)]
pub struct OrderedSet<T> {
    pub items: Vec<T>,
}

impl<T: Ranked> OrderedSet<T> {
    /// The members, ascending.
    pub open spec fn members(&self) -> Seq<T::V> {
        self.items.deep_view()
    }

    pub fn new() -> (r: OrderedSet<T>)
        ensures
            r.members() == Seq::<T::V>::empty(),
    {
        let r: OrderedSet<T> = OrderedSet { items: Vec::new() };
        assert(r.members() =~= Seq::<T::V>::empty());
        r
    }

    pub fn contains(&self, x: &T) -> (r: bool)
        ensures
            r == self.members().contains(x.deep_view()),
    {
        let mut i: usize = 0;
        while i < self.items.len()
            invariant
                i <= self.items.len(),
                forall|k: int| 0 <= k < i ==> #[trigger] self.members()[k] != x.deep_view(),
            decreases self.items.len() - i,
        {
            if self.items[i].same(x) {
                proof {
                    assert(self.members()[i as int] == x.deep_view());
                }
                return true;
            }
            i += 1;
        }
        false
    }

    /// Add an item; whether it was not there before.
    pub fn insert(&mut self, x: T) -> (added: bool)
        requires
            ascending::<T>(old(self).members()),
        ensures
            final(self).members() == with_item::<T>(old(self).members(), x.deep_view()),
            ascending::<T>(final(self).members()),
            added == !old(self).members().contains(x.deep_view()),
    {
        let ghost s = self.members();
        let ghost xv = x.deep_view();
        proof {
            with_item_keeps_order::<T>(s, xv);
            assert(s.skip(0) =~= s);
        }
        if self.contains(&x) {
            return false;
        }
        let mut p: usize = 0;
        while p < self.items.len() && self.items[p].precedes(&x)
            invariant
                p <= self.items.len(),
                s == self.members(),
                xv == x.deep_view(),
                leading::<T>(s, xv) == p + leading::<T>(s.skip(p as int), xv),
            decreases self.items.len() - p,
        {
            proof {
                assert(s.skip(p as int)[0] == s[p as int]);
                assert(s.skip(p as int).drop_first() =~= s.skip(p + 1));
            }
            p += 1;
        }
        proof {
            if p < s.len() {
                assert(s.skip(p as int)[0] == s[p as int]);
            }
            assert(leading::<T>(s, xv) == p);
        }
        self.items.insert(p, x);
        proof {
            assert(self.members() =~= s.insert(p as int, xv));
        }
        true
    }

    /// Take an item out; whether it was there.
    pub fn remove(&mut self, x: &T) -> (removed: bool)
        requires
            ascending::<T>(old(self).members()),
        ensures
            final(self).members() == without_item(old(self).members(), x.deep_view()),
            ascending::<T>(final(self).members()),
            removed == old(self).members().contains(x.deep_view()),
    {
        let ghost s = self.members();
        let ghost xv = x.deep_view();
        let ghost keep = |y: T::V| y != xv;
        proof {
            filtering_keeps_order::<T>(s, keep);
            reveal(Seq::filter);
            assert(s.take(0) =~= Seq::<T::V>::empty());
            assert(s.skip(0) =~= s);
        }
        let mut i: usize = 0;
        let mut removed: bool = false;
        let ghost mut n: int = 0;
        while i < self.items.len()
            invariant
                0 <= n <= s.len(),
                i == s.take(n).filter(keep).len(),
                self.members() == s.take(n).filter(keep) + s.skip(n),
                keep == (|y: T::V| y != xv),
                xv == x.deep_view(),
                removed == s.take(n).contains(xv),
            decreases self.items.len() - i,
        {
            proof {
                assert(self.members()[i as int] == s.skip(n)[0]);
                assert(s.skip(n)[0] == s[n]);
                filter_one_more(s, n, keep);
                assert(s.take(n + 1) =~= s.take(n).push(s[n]));
            }
            let hit: bool = self.items[i].same(x);
            proof {
                if hit {
                    assert(s.take(n + 1)[n] == xv);
                } else if s.take(n + 1).contains(xv) {
                    let k = choose|k: int| 0 <= k < n + 1 && (#[trigger] s.take(n + 1)[k]) == xv;
                    assert(s.take(n)[k] == xv);
                }
                if s.take(n).contains(xv) {
                    let k = choose|k: int| 0 <= k < n && s.take(n)[k] == xv;
                    assert(s.take(n + 1)[k] == xv);
                }
            }
            if hit {
                let ghost whole = self.members();
                self.items.remove(i);
                removed = true;
                proof {
                    assert(self.members() =~= whole.remove(i as int));
                    assert(self.members() =~= s.take(n + 1).filter(keep) + s.skip(n + 1));
                }
            } else {
                i += 1;
                proof {
                    assert(self.members() =~= s.take(n + 1).filter(keep) + s.skip(n + 1));
                }
            }
            proof {
                n = n + 1;
            }
        }
        proof {
            assert(s.skip(n).len() == 0);
            assert(s.take(n) =~= s);
            assert(self.members() =~= s.filter(keep));
        }
        removed
    }
}

// --- tables -------------------------------------------------------------

/// The value kept under `k`.
pub open spec fn value_of<K, V>(s: Seq<(K, V)>, k: K) -> Option<V>
    decreases s.len(),
{
    if s.len() == 0 {
        None
    } else if s[0].0 == k {
        Some(s[0].1)
    } else {
        value_of(s.drop_first(), k)
    }
}

/// The table with `v` kept under `k`: in place of what was kept there, or at
/// the end.
pub open spec fn stored<K, V>(s: Seq<(K, V)>, k: K, v: V) -> Seq<(K, V)>
    decreases s.len(),
{
    if s.len() == 0 {
        seq![(k, v)]
    } else if s[0].0 == k {
        seq![(k, v)] + s.drop_first()
    } else {
        seq![s[0]] + stored(s.drop_first(), k, v)
    }
}

/// The table without what is kept under `k`.
pub open spec fn erased<K, V>(s: Seq<(K, V)>, k: K) -> Seq<(K, V)> {
    s.filter(|e: (K, V)| e.0 != k)
}

pub proof fn erased_filters<K, V>(s: Seq<(K, V)>, k: K, others: spec_fn((K, V)) -> bool)
    requires
        forall|e: (K, V)| #[trigger] others(e) == (e.0 != k),
    ensures
        erased(s, k) == s.filter(others),
{
    assert((|e: (K, V)| e.0 != k) =~= others);
}

/// No key is used twice.
pub open spec fn keyed<K, V>(s: Seq<(K, V)>) -> bool {
    forall|i: int, j: int| 0 <= i < j < s.len() ==> (#[trigger] s[i]).0 != (#[trigger] s[j]).0
}

/// Whether an item is in a list.
pub fn listed<T: Alike>(v: &Vec<T>, x: &T) -> (r: bool)
    ensures
        r == v.deep_view().contains(x.deep_view()),
{
    let mut i: usize = 0;
    while i < v.len()
        invariant
            i <= v.len(),
            forall|k: int| 0 <= k < i ==> #[trigger] v.deep_view()[k] != x.deep_view(),
        decreases v.len() - i,
    {
        if v[i].same(x) {
            proof {
                assert(v.deep_view()[i as int] == x.deep_view());
            }
            return true;
        }
        i += 1;
    }
    false
}

/// The items in the opposite order, so that the first is the next to be taken.
pub fn reversed<T>(v: Vec<T>) -> (r: Vec<T>)
    ensures
        r@ == v@.reverse(),
{
    let ghost all = v@;
    let mut left: Vec<T> = v;
    let mut r: Vec<T> = Vec::new();
    assert(r@ =~= all.reverse().take(0));
    while left.len() > 0
        invariant
            left@ == all.take(left@.len() as int),
            left@.len() <= all.len(),
            r@ =~= all.reverse().take(all.len() - left@.len()),
        decreases left.len(),
    {
        let ghost before = left@;
        match left.pop() {
            Some(x) => {
                proof {
                    assert(before.last() == x);
                    assert(left@ =~= all.take(left@.len() as int));
                }
                r.push(x);
            },
            None => {},
        }
    }
    assert(all.reverse().take(all.len() as int) =~= all.reverse());
    r
}

/// Keep the items that `f` accepts, in order; what was not kept comes back,
/// in order too. `keep` says what `f` decides.
pub fn sift<T: DeepView, F: Fn(&T) -> bool>(
    v: &mut Vec<T>,
    f: F,
    Ghost(keep): Ghost<spec_fn(T::V) -> bool>,
) -> (gone: Vec<T>)
    requires
        forall|x: &T| #[trigger] f.requires((x,)),
        forall|x: &T, r: bool| #[trigger] f.ensures((x,), r) ==> r == keep(x.deep_view()),
    ensures
        final(v).deep_view() == old(v).deep_view().filter(keep),
        gone.deep_view() == old(v).deep_view().filter(|x: T::V| !keep(x)),
{
    let ghost s = v.deep_view();
    let ghost drop = |x: T::V| !keep(x);
    let mut gone: Vec<T> = Vec::new();
    let mut i: usize = 0;
    let ghost mut n: int = 0;
    proof {
        reveal(Seq::filter);
        assert(s.take(0) =~= Seq::<T::V>::empty());
        assert(s.skip(0) =~= s);
        assert(gone.deep_view() =~= Seq::<T::V>::empty());
    }
    while i < v.len()
        invariant
            0 <= n <= s.len(),
            i == s.take(n).filter(keep).len(),
            v.deep_view() == s.take(n).filter(keep) + s.skip(n),
            gone.deep_view() == s.take(n).filter(drop),
            drop == (|x: T::V| !keep(x)),
            forall|x: &T| #[trigger] f.requires((x,)),
            forall|x: &T, r: bool| #[trigger] f.ensures((x,), r) ==> r == keep(x.deep_view()),
        decreases v.len() - i,
    {
        let ghost whole = v.deep_view();
        proof {
            assert(whole[i as int] == s.skip(n)[0]);
            assert(s.skip(n)[0] == s[n]);
            filter_one_more(s, n, keep);
            filter_one_more(s, n, drop);
        }
        let kept: bool = f(&v[i]);
        if kept {
            i += 1;
        } else {
            let ghost earlier = gone.deep_view();
            let x: T = v.remove(i);
            let ghost xv = x.deep_view();
            gone.push(x);
            proof {
                assert(v.deep_view() =~= whole.remove(i as int));
                assert(gone.deep_view() =~= earlier.push(xv));
            }
        }
        proof {
            assert(v.deep_view() =~= s.take(n + 1).filter(keep) + s.skip(n + 1));
            n = n + 1;
        }
    }
    proof {
        assert(s.skip(n).len() == 0);
        assert(s.take(n) =~= s);
        assert(v.deep_view() =~= s.filter(keep));
    }
    gone
}

pub proof fn value_of_skips<K, V>(s: Seq<(K, V)>, i: int, k: K)
    requires
        0 <= i <= s.len(),
        forall|j: int| 0 <= j < i ==> (#[trigger] s[j]).0 != k,
    ensures
        value_of(s, k) == value_of(s.skip(i), k),
    decreases i,
{
    if i > 0 {
        assert forall|j: int| 0 <= j < i - 1 implies (#[trigger] s.drop_first()[j]).0 != k by {
            assert(s.drop_first()[j] == s[j + 1]);
        }
        value_of_skips(s.drop_first(), i - 1, k);
        assert(s.drop_first().skip(i - 1) =~= s.skip(i));
        assert(s[0].0 != k);
    } else {
        assert(s.skip(0) =~= s);
    }
}

pub proof fn stored_at<K, V>(s: Seq<(K, V)>, i: int, k: K, v: V)
    requires
        0 <= i <= s.len(),
        forall|j: int| 0 <= j < i ==> (#[trigger] s[j]).0 != k,
        i < s.len() ==> s[i].0 == k,
    ensures
        stored(s, k, v) == if i < s.len() {
            s.update(i, (k, v))
        } else {
            s.push((k, v))
        },
    decreases i,
{
    if i > 0 {
        assert(s[0].0 != k);
        let rest = s.drop_first();
        assert forall|j: int| 0 <= j < i - 1 implies (#[trigger] rest[j]).0 != k by {
            assert(rest[j] == s[j + 1]);
        }
        if i < s.len() {
            assert(rest[i - 1] == s[i]);
        }
        stored_at(rest, i - 1, k, v);
        if i < s.len() {
            assert(seq![s[0]] + rest.update(i - 1, (k, v)) =~= s.update(i, (k, v)));
        } else {
            assert(seq![s[0]] + rest.push((k, v)) =~= s.push((k, v)));
        }
    } else if s.len() > 0 {
        assert(seq![(k, v)] + s.drop_first() =~= s.update(0, (k, v)));
    } else {
        assert(seq![(k, v)] =~= s.push((k, v)));
    }
}

/// Something is kept under a key exactly when the key occurs.
pub proof fn value_of_finds<K, V>(s: Seq<(K, V)>, k: K)
    ensures
        value_of(s, k) is Some <==> exists|i: int| 0 <= i < s.len() && (#[trigger] s[i]).0 == k,
        value_of(s, k) is Some ==> s.contains((k, value_of(s, k)->0)),
    decreases s.len(),
{
    if s.len() > 0 {
        let rest = s.drop_first();
        value_of_finds(rest, k);
        if s[0].0 == k {
            assert(s.contains(s[0]));
        } else {
            if value_of(rest, k) is Some {
                let i = choose|i: int| 0 <= i < rest.len() && rest[i] == (k, value_of(rest, k)->0);
                assert(s[i + 1] == rest[i]);
            }
            if exists|i: int| 0 <= i < s.len() && (#[trigger] s[i]).0 == k {
                let i = choose|i: int| 0 <= i < s.len() && (#[trigger] s[i]).0 == k;
                assert(rest[i - 1] == s[i]);
            }
        }
    }
}

/// With no key used twice, an entry of the table is what its key finds.
pub proof fn entry_is_found<K, V>(s: Seq<(K, V)>, i: int)
    requires
        keyed(s),
        0 <= i < s.len(),
    ensures
        value_of(s, s[i].0) == Some(s[i].1),
{
    value_of_skips(s, i, s[i].0);
    assert(s.skip(i)[0] == s[i]);
}

/// What is kept under a key after storing under another, or the same.
pub proof fn stored_reads_back<K, V>(s: Seq<(K, V)>, k: K, v: V, other: K)
    ensures
        value_of(stored(s, k, v), other) == if other == k {
            Some(v)
        } else {
            value_of(s, other)
        },
    decreases s.len(),
{
    let r = stored(s, k, v);
    if s.len() == 0 {
        assert(r.drop_first() =~= Seq::<(K, V)>::empty());
        reveal_with_fuel(value_of, 2);
    } else {
        stored_reads_back(s.drop_first(), k, v, other);
        if s[0].0 == k {
            assert(r.drop_first() =~= s.drop_first());
        } else {
            assert(r.drop_first() =~= stored(s.drop_first(), k, v));
        }
    }
}

/// Storing uses no key twice, and uses no key but the old ones and `k`.
pub proof fn stored_stays_keyed<K, V>(s: Seq<(K, V)>, k: K, v: V)
    requires
        keyed(s),
    ensures
        keyed(stored(s, k, v)),
        forall|i: int|
            0 <= i < stored(s, k, v).len() ==> (#[trigger] stored(s, k, v)[i]) == (k, v) || (
            stored(s, k, v)[i].0 != k && s.contains(stored(s, k, v)[i])),
{
    let r = stored(s, k, v);
    value_of_finds(s, k);
    if value_of(s, k) is Some {
        let i = choose|i: int| 0 <= i < s.len() && (#[trigger] s[i]).0 == k;
        assert forall|j: int| 0 <= j < i implies (#[trigger] s[j]).0 != k by {
            assert(s[j].0 != s[i].0);
        }
        stored_at(s, i, k, v);
    } else {
        assert forall|j: int| 0 <= j < s.len() implies (#[trigger] s[j]).0 != k by {
        }
        stored_at(s, s.len() as int, k, v);
    }
}

/// Filtering a table uses no key twice.
pub proof fn filtering_stays_keyed<K, V>(s: Seq<(K, V)>, keep: spec_fn((K, V)) -> bool)
    requires
        keyed(s),
    ensures
        keyed(s.filter(keep)),
        forall|e: (K, V)| #[trigger] s.filter(keep).contains(e) <==> s.contains(e) && keep(e),
    decreases s.len(),
{
    reveal(Seq::filter);
    if s.len() > 0 {
        let front = s.drop_last();
        assert forall|i: int, j: int| 0 <= i < j < front.len() implies (#[trigger] front[i]).0 != (
        #[trigger] front[j]).0 by {
            assert(front[i] == s[i] && front[j] == s[j]);
        }
        filtering_stays_keyed(front, keep);
        let kept = front.filter(keep);
        let all = s.filter(keep);
        assert forall|e: (K, V)| kept.contains(e) implies e.0 != s.last().0 by {
            assert(front.contains(e));
            let k = choose|k: int| 0 <= k < front.len() && front[k] == e;
            assert(s[k] == e);
        }
        assert forall|i: int, j: int| 0 <= i < j < all.len() implies (#[trigger] all[i]).0 != (
        #[trigger] all[j]).0 by {
            if keep(s.last()) {
                assert(all == kept.push(s.last()));
                assert(kept.contains(kept[i]));
            }
        }
        assert forall|e: (K, V)| #[trigger] all.contains(e) <==> s.contains(e) && keep(e) by {
            if all.contains(e) {
                let k = choose|k: int| 0 <= k < all.len() && all[k] == e;
                if k < kept.len() {
                    assert(kept[k] == e);
                    assert(kept.contains(e));
                    let m = choose|m: int| 0 <= m < front.len() && front[m] == e;
                    assert(s[m] == e);
                } else {
                    assert(s[s.len() - 1] == e);
                }
            }
            if s.contains(e) && keep(e) {
                let k = choose|k: int| 0 <= k < s.len() && s[k] == e;
                if k < front.len() {
                    assert(front[k] == e);
                    assert(kept.contains(e));
                    let m = choose|m: int| 0 <= m < kept.len() && kept[m] == e;
                    assert(all[m] == e);
                } else {
                    assert(all[all.len() - 1] == e);
                }
            }
        }
    }
}

/// What is kept under a key after filtering.
pub proof fn filtered_reads_back<K, V>(s: Seq<(K, V)>, keep: spec_fn((K, V)) -> bool, k: K)
    requires
        keyed(s),
    ensures
        value_of(s.filter(keep), k) == match value_of(s, k) {
            Some(v) => if keep((k, v)) {
                Some(v)
            } else {
                None
            },
            None => None,
        },
{
    let r = s.filter(keep);
    filtering_stays_keyed(s, keep);
    value_of_finds(s, k);
    value_of_finds(r, k);
    if let Some(v) = value_of(r, k) {
        assert(r.contains((k, v)));
        assert(s.contains((k, v)));
        let i = choose|i: int| 0 <= i < s.len() && s[i] == (k, v);
        entry_is_found(s, i);
    }
    if let Some(v) = value_of(s, k) {
        if keep((k, v)) {
            assert(r.contains((k, v)));
            let i = choose|i: int| 0 <= i < r.len() && r[i] == (k, v);
            entry_is_found(r, i);
        }
    }
}

/// A table of values kept under keys, in the order in which the keys arrived.
#[derive(Debug)]
pub struct Table<K, V> {
    pub rows: Vec<(K, V)>,
}

impl<K: Alike, V: DeepView> Table<K, V> {
    /// The keys and what is kept under them, in order of arrival.
    pub open spec fn entries(&self) -> Seq<(K::V, V::V)> {
        self.rows.deep_view()
    }

    pub fn new() -> (r: Table<K, V>)
        ensures
            r.entries() == Seq::<(K::V, V::V)>::empty(),
    {
        let r: Table<K, V> = Table { rows: Vec::new() };
        assert(r.entries() =~= Seq::<(K::V, V::V)>::empty());
        r
    }

    /// The row that holds a key.
    pub fn position(&self, k: &K) -> (r: Option<usize>)
        ensures
            match r {
                Some(i) => i < self.rows.len() && self.entries()[i as int].0 == k.deep_view()
                    && value_of(self.entries(), k.deep_view()) == Some(self.entries()[i as int].1)
                    && forall|j: int|
                    0 <= j < i ==> (#[trigger] self.entries()[j]).0 != k.deep_view(),
                None => value_of(self.entries(), k.deep_view()) is None && forall|j: int|
                    0 <= j < self.entries().len() ==> (#[trigger] self.entries()[j]).0
                        != k.deep_view(),
            },
    {
        let mut i: usize = 0;
        while i < self.rows.len()
            invariant
                i <= self.rows.len(),
                forall|j: int| 0 <= j < i ==> (#[trigger] self.entries()[j]).0 != k.deep_view(),
            decreases self.rows.len() - i,
        {
            if self.rows[i].0.same(k) {
                proof {
                    value_of_skips(self.entries(), i as int, k.deep_view());
                    assert(self.entries().skip(i as int)[0] == self.entries()[i as int]);
                }
                return Some(i);
            }
            i += 1;
        }
        proof {
            value_of_skips(self.entries(), i as int, k.deep_view());
            assert(self.entries().skip(i as int).len() == 0);
        }
        None
    }

    pub fn contains_key(&self, k: &K) -> (r: bool)
        ensures
            r == (value_of(self.entries(), k.deep_view()) is Some),
    {
        self.position(k).is_some()
    }

    pub fn get(&self, k: &K) -> (r: Option<&V>)
        ensures
            match r {
                Some(v) => value_of(self.entries(), k.deep_view()) == Some(v.deep_view()),
                None => value_of(self.entries(), k.deep_view()) is None,
            },
    {
        match self.position(k) {
            Some(i) => Some(&self.rows[i].1),
            None => None,
        }
    }

    /// Keep `v` under `k`, in place of what was kept there before.
    pub fn insert(&mut self, k: K, v: V)
        requires
            keyed(old(self).entries()),
        ensures
            final(self).entries() == stored(old(self).entries(), k.deep_view(), v.deep_view()),
            keyed(final(self).entries()),
    {
        let ghost s = self.entries();
        let ghost kv = k.deep_view();
        let ghost vv = v.deep_view();
        proof {
            stored_stays_keyed(s, kv, vv);
        }
        match self.position(&k) {
            Some(i) => {
                proof {
                    stored_at(s, i as int, kv, vv);
                }
                self.rows[i] = (k, v);
                proof {
                    assert(self.entries() =~= s.update(i as int, (kv, vv)));
                }
            },
            None => {
                proof {
                    stored_at(s, s.len() as int, kv, vv);
                }
                self.rows.push((k, v));
                proof {
                    assert(self.entries() =~= s.push((kv, vv)));
                }
            },
        }
    }

    /// Take out the row at `i`.
    pub fn take_row(&mut self, i: usize) -> (row: (K, V))
        requires
            keyed(old(self).entries()),
            i < old(self).rows.len(),
        ensures
            row.deep_view() == old(self).entries()[i as int],
            final(self).entries() == erased(old(self).entries(), row.0.deep_view()),
            final(self).entries() == old(self).entries().remove(i as int),
            keyed(final(self).entries()),
    {
        let ghost s = self.entries();
        let ghost k = s[i as int].0;
        let row: (K, V) = self.rows.remove(i);
        proof {
            assert(self.entries() =~= s.remove(i as int));
            erasing_removes_one(s, i as int);
            filtering_stays_keyed(s, |e: (K::V, V::V)| e.0 != k);
        }
        row
    }

    /// Put back a row that was taken out at `i`.
    pub fn put_row(&mut self, i: usize, row: (K, V), Ghost(before): Ghost<Seq<(K::V, V::V)>>)
        requires
            keyed(before),
            i < before.len(),
            before[i as int].0 == row.0.deep_view(),
            old(self).entries() == before.remove(i as int),
        ensures
            final(self).entries() == stored(before, row.0.deep_view(), row.1.deep_view()),
            keyed(final(self).entries()),
    {
        let ghost k = row.0.deep_view();
        let ghost v = row.1.deep_view();
        let ghost now = self.entries();
        assert(now.len() == self.rows.len());
        self.rows.insert(i, row);
        proof {
            assert(self.entries() =~= now.insert(i as int, (k, v)));
            assert(self.entries() =~= before.update(i as int, (k, v)));
            assert forall|j: int| 0 <= j < i implies (#[trigger] before[j]).0 != k by {
                assert(before[j].0 != before[i as int].0);
            }
            stored_at(before, i as int, k, v);
            stored_stays_keyed(before, k, v);
        }
    }

    /// Take out what is kept under `k`.
    pub fn remove(&mut self, k: &K) -> (r: Option<V>)
        requires
            keyed(old(self).entries()),
        ensures
            final(self).entries() == erased(old(self).entries(), k.deep_view()),
            keyed(final(self).entries()),
            match r {
                Some(v) => value_of(old(self).entries(), k.deep_view()) == Some(v.deep_view()),
                None => value_of(old(self).entries(), k.deep_view()) is None,
            },
    {
        let ghost s = self.entries();
        let ghost kv = k.deep_view();
        let ghost keep = |e: (K::V, V::V)| e.0 != kv;
        proof {
            filtering_stays_keyed(s, keep);
        }
        match self.position(k) {
            Some(i) => {
                let row: (K, V) = self.rows.remove(i);
                proof {
                    assert(self.entries() =~= s.remove(i as int));
                    erasing_removes_one(s, i as int);
                }
                Some(row.1)
            },
            None => {
                proof {
                    keeping_all(s, keep);
                }
                None
            },
        }
    }
}

pub proof fn keeping_all<A>(s: Seq<A>, keep: spec_fn(A) -> bool)
    requires
        forall|i: int| 0 <= i < s.len() ==> keep(#[trigger] s[i]),
    ensures
        s.filter(keep) == s,
    decreases s.len(),
{
    reveal(Seq::filter);
    if s.len() > 0 {
        keeping_all(s.drop_last(), keep);
        assert(s.drop_last().push(s.last()) =~= s);
    } else {
        assert(s.filter(keep) =~= s);
    }
}

pub proof fn erasing_removes_one<K, V>(s: Seq<(K, V)>, i: int)
    requires
        keyed(s),
        0 <= i < s.len(),
    ensures
        erased(s, s[i].0) == s.remove(i),
    decreases s.len(),
{
    reveal(Seq::filter);
    let k = s[i].0;
    let keep = |e: (K, V)| e.0 != k;
    let front = s.drop_last();
    assert forall|a: int, b: int| 0 <= a < b < front.len() implies (#[trigger] front[a]).0 != (
    #[trigger] front[b]).0 by {
        assert(front[a] == s[a] && front[b] == s[b]);
    }
    if i == s.len() - 1 {
        assert forall|j: int| 0 <= j < front.len() implies keep(#[trigger] front[j]) by {
            assert(front[j] == s[j]);
            assert(s[j].0 != s[i].0);
        }
        keeping_all(front, keep);
        assert(s.remove(i) =~= front);
    } else {
        assert(front[i] == s[i]);
        erasing_removes_one(front, i);
        assert(s[i].0 != s[s.len() - 1].0);
        assert(front.remove(i).push(s.last()) =~= s.remove(i));
    }
}

// --- tables kept in the order of their keys -----------------------------------

/// Strictly ascending by key.
pub open spec fn ascending_keys<K: Ranked, V>(s: Seq<(K::V, V)>) -> bool {
    forall|i: int, j: int|
        0 <= i < j < s.len() ==> K::before((#[trigger] s[i]).0, (#[trigger] s[j]).0)
}

/// How many of the leading keys come before `k`.
pub open spec fn leading_keys<K: Ranked, V>(s: Seq<(K::V, V)>, k: K::V) -> nat
    decreases s.len(),
{
    if s.len() == 0 || !K::before(s[0].0, k) {
        0
    } else {
        1 + leading_keys::<K, V>(s.drop_first(), k)
    }
}

/// The table with `v` kept under `k`: in place of what was kept there, or
/// where its key belongs.
pub open spec fn put<K: Ranked, V>(s: Seq<(K::V, V)>, k: K::V, v: V) -> Seq<(K::V, V)> {
    if value_of(s, k) is Some {
        stored(s, k, v)
    } else {
        s.insert(leading_keys::<K, V>(s, k) as int, (k, v))
    }
}

pub proof fn leading_keys_split<K: Ranked, V>(s: Seq<(K::V, V)>, k: K::V)
    requires
        ascending_keys::<K, V>(s),
    ensures
        leading_keys::<K, V>(s, k) <= s.len(),
        forall|i: int|
            0 <= i < leading_keys::<K, V>(s, k) ==> K::before((#[trigger] s[i]).0, k),
        leading_keys::<K, V>(s, k) < s.len() ==> !K::before(
            s[leading_keys::<K, V>(s, k) as int].0,
            k,
        ),
    decreases s.len(),
{
    if s.len() > 0 && K::before(s[0].0, k) {
        let rest = s.drop_first();
        assert forall|i: int, j: int| 0 <= i < j < rest.len() implies K::before(
            (#[trigger] rest[i]).0,
            (#[trigger] rest[j]).0,
        ) by {
            assert(rest[i] == s[i + 1]);
            assert(rest[j] == s[j + 1]);
        }
        leading_keys_split::<K, V>(rest, k);
        assert forall|i: int| 0 <= i < leading_keys::<K, V>(s, k) implies K::before(
            (#[trigger] s[i]).0,
            k,
        ) by {
            if i > 0 {
                assert(s[i] == rest[i - 1]);
            }
        }
        if leading_keys::<K, V>(s, k) < s.len() {
            assert(s[leading_keys::<K, V>(s, k) as int] == rest[leading_keys::<K, V>(
                rest,
                k,
            ) as int]);
        }
    }
}

pub proof fn ascending_keys_are_keyed<K: Ranked, V>(s: Seq<(K::V, V)>)
    requires
        ascending_keys::<K, V>(s),
    ensures
        keyed(s),
{
    assert forall|i: int, j: int| 0 <= i < j < s.len() implies (#[trigger] s[i]).0 != (
    #[trigger] s[j]).0 by {
        K::nothing_precedes_itself(s[i].0);
    }
}

/// Putting keeps the order.
pub proof fn put_keeps_order<K: Ranked, V>(s: Seq<(K::V, V)>, k: K::V, v: V)
    requires
        ascending_keys::<K, V>(s),
    ensures
        ascending_keys::<K, V>(put::<K, V>(s, k, v)),
{
    ascending_keys_are_keyed::<K, V>(s);
    value_of_finds(s, k);
    let r = put::<K, V>(s, k, v);
    if value_of(s, k) is Some {
        let i = choose|i: int| 0 <= i < s.len() && (#[trigger] s[i]).0 == k;
        assert forall|j: int| 0 <= j < i implies (#[trigger] s[j]).0 != k by {
            assert(s[j].0 != s[i].0);
        }
        stored_at(s, i, k, v);
    } else {
        leading_keys_split::<K, V>(s, k);
        let p = leading_keys::<K, V>(s, k) as int;
        assert forall|i: int| p <= i < s.len() implies K::before(k, (#[trigger] s[i]).0) by {
            K::distinct_values_are_ordered(s[p].0, k);
            assert(K::before(k, s[p].0));
            if i > p {
                K::precedence_chains(k, s[p].0, s[i].0);
            }
        }
        assert forall|i: int, j: int| 0 <= i < j < r.len() implies K::before(
            (#[trigger] r[i]).0,
            (#[trigger] r[j]).0,
        ) by {
            let a = if i < p { i } else { i - 1 };
            let b = if j < p { j } else { j - 1 };
            if i == p {
                assert(r[j] == s[j - 1]);
            } else if j == p {
                assert(r[i] == s[i]);
            } else {
                assert(r[i] == s[a]);
                assert(r[j] == s[b]);
            }
        }
    }
}

/// A table kept in the order of its keys.
#[derive(Debug, Clone, PartialEq, Eq)]
pub struct OrderedMap<K, V> {
    pub rows: Vec<(K, V)>,
}

impl<K: DeepView, V: DeepView> DeepView for OrderedMap<K, V> {
    type V = Seq<(K::V, V::V)>;

    open spec fn deep_view(&self) -> Seq<(K::V, V::V)> {
        self.rows.deep_view()
    }
}

impl<K: Ranked, V: DeepView> OrderedMap<K, V> {
    /// The keys and what is kept under them, in order of the keys.
    pub open spec fn entries(&self) -> Seq<(K::V, V::V)> {
        self.rows.deep_view()
    }

    pub open spec fn wf(&self) -> bool {
        ascending_keys::<K, V::V>(self.entries())
    }

    pub fn new() -> (r: OrderedMap<K, V>)
        ensures
            r.entries() == Seq::<(K::V, V::V)>::empty(),
            r.wf(),
    {
        let r: OrderedMap<K, V> = OrderedMap { rows: Vec::new() };
        assert(r.entries() =~= Seq::<(K::V, V::V)>::empty());
        r
    }

    /// The row that holds a key.
    pub fn position(&self, k: &K) -> (r: Option<usize>)
        ensures
            match r {
                Some(i) => i < self.rows.len() && self.entries()[i as int].0 == k.deep_view()
                    && value_of(self.entries(), k.deep_view()) == Some(self.entries()[i as int].1)
                    && forall|j: int|
                    0 <= j < i ==> (#[trigger] self.entries()[j]).0 != k.deep_view(),
                None => value_of(self.entries(), k.deep_view()) is None,
            },
    {
        let mut i: usize = 0;
        while i < self.rows.len()
            invariant
                i <= self.rows.len(),
                forall|j: int| 0 <= j < i ==> (#[trigger] self.entries()[j]).0 != k.deep_view(),
            decreases self.rows.len() - i,
        {
            if self.rows[i].0.same(k) {
                proof {
                    value_of_skips(self.entries(), i as int, k.deep_view());
                    assert(self.entries().skip(i as int)[0] == self.entries()[i as int]);
                }
                return Some(i);
            }
            i += 1;
        }
        proof {
            value_of_skips(self.entries(), i as int, k.deep_view());
            assert(self.entries().skip(i as int).len() == 0);
        }
        None
    }

    pub fn get(&self, k: &K) -> (r: Option<&V>)
        ensures
            match r {
                Some(v) => value_of(self.entries(), k.deep_view()) == Some(v.deep_view()),
                None => value_of(self.entries(), k.deep_view()) is None,
            },
    {
        match self.position(k) {
            Some(i) => Some(&self.rows[i].1),
            None => None,
        }
    }

    /// Keep `v` under `k`, in place of what was kept there before.
    pub fn insert(&mut self, k: K, v: V)
        requires
            old(self).wf(),
        ensures
            final(self).entries() == put::<K, V::V>(
                old(self).entries(),
                k.deep_view(),
                v.deep_view(),
            ),
            final(self).wf(),
    {
        let ghost s = self.entries();
        let ghost kv = k.deep_view();
        let ghost vv = v.deep_view();
        proof {
            put_keeps_order::<K, V::V>(s, kv, vv);
            assert(s.skip(0) =~= s);
        }
        match self.position(&k) {
            Some(i) => {
                proof {
                    stored_at(s, i as int, kv, vv);
                }
                self.rows[i] = (k, v);
                proof {
                    assert(self.entries() =~= s.update(i as int, (kv, vv)));
                }
            },
            None => {
                let mut p: usize = 0;
                while p < self.rows.len() && self.rows[p].0.precedes(&k)
                    invariant
                        p <= self.rows.len(),
                        s == self.entries(),
                        kv == k.deep_view(),
                        leading_keys::<K, V::V>(s, kv) == p + leading_keys::<K, V::V>(
                            s.skip(p as int),
                            kv,
                        ),
                    decreases self.rows.len() - p,
                {
                    proof {
                        assert(s.skip(p as int)[0] == s[p as int]);
                        assert(s.skip(p as int).drop_first() =~= s.skip(p + 1));
                    }
                    p += 1;
                }
                proof {
                    if p < s.len() {
                        assert(s.skip(p as int)[0] == s[p as int]);
                    }
                    assert(leading_keys::<K, V::V>(s, kv) == p);
                }
                self.rows.insert(p, (k, v));
                proof {
                    assert(self.entries() =~= s.insert(p as int, (kv, vv)));
                }
            },
        }
    }
}

} // verus!
