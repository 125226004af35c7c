//! Stable sorting, and what it keeps.
use vstd::prelude::*;

verus! {

/// `x` put into `s` behind everything that it does not have to come before.
pub open spec fn inserted<T>(s: Seq<T>, x: T, before: spec_fn(T, T) -> bool) -> Seq<T>
    decreases s.len(),
{
    if s.len() > 0 && before(x, s.last()) {
        inserted(s.drop_last(), x, before).push(s.last())
    } else {
        s.push(x)
    }
}

/// `s` in the order that `before` asks for; what may stand either way keeps its order.
pub open spec fn sorted<T>(s: Seq<T>, before: spec_fn(T, T) -> bool) -> Seq<T>
    decreases s.len(),
{
    if s.len() == 0 {
        s
    } else {
        inserted(sorted(s.drop_last(), before), s.last(), before)
    }
}

/// Whether "need not come after" is transitive, as it is for every order by a key.
pub open spec fn is_weak_order<T>(before: spec_fn(T, T) -> bool) -> bool {
    &&& forall|a: T, b: T| #[trigger] before(a, b) ==> !before(b, a)
    &&& forall|a: T, b: T, c: T|
        !(#[trigger] before(b, a)) && !(#[trigger] before(c, b)) ==> !before(c, a)
}

/// Something that can be put in order.
pub trait Ranked: Sized {
    /// Whether `self` has to come before `other`.
    spec fn ahead(self, other: Self) -> bool;

    /// Whether `self` has to come before `other`.
    fn is_ahead(&self, other: &Self) -> (r: bool)
        ensures
            r == self.ahead(*other),
    ;
}

/// The order of a ranked type, as a function.
pub open spec fn rank<T: Ranked>() -> spec_fn(T, T) -> bool {
    |a: T, b: T| a.ahead(b)
}

/// Sorts `items`; those that may stand either way keep their order.
pub fn sort_stable<T: Ranked>(items: Vec<T>) -> (r: Vec<T>)
    ensures
        r@ == sorted(items@, rank::<T>()),
{
    let mut rest = items;
    let mut queue: Vec<T> = Vec::new();
    let ghost all = items@;
    while rest.len() > 0
        invariant
            rest@ == all.take(rest@.len() as int),
            queue@.len() + rest@.len() == all.len(),
            forall|i: int|
                0 <= i < queue@.len() ==> #[trigger] queue@[i] == all[all.len() - 1 - i],
        decreases rest@.len(),
    {
        let ghost n = rest@.len() as int;
        let ghost q = queue@;
        match rest.pop() {
            Some(x) => {
                queue.push(x);
                assert(x == all[n - 1]);
                assert forall|i: int| 0 <= i < queue@.len() implies #[trigger] queue@[i] == all[
                all.len() - 1 - i] by {
                    if i < q.len() {
                        assert(queue@[i] == q[i]);
                    }
                }
            },
            None => {},
        }
    }
    let mut out: Vec<T> = Vec::new();
    assert(all.take(0) =~= Seq::<T>::empty());
    while queue.len() > 0
        invariant
            queue@.len() <= all.len(),
            forall|i: int|
                0 <= i < queue@.len() ==> #[trigger] queue@[i] == all[all.len() - 1 - i],
            out@ == sorted(all.take(all.len() - queue@.len()), rank::<T>()),
        decreases queue@.len(),
    {
        let ghost done = all.len() - queue@.len();
        match queue.pop() {
            Some(x) => {
                assert(x == all[done]);
                assert(all.take(done + 1).drop_last() =~= all.take(done));
                insert_ranked(&mut out, x);
            },
            None => {},
        }
    }
    assert(all.take(all.len() as int) =~= all);
    out
}

/// Puts `x` into `out` behind everything that it does not have to come before.
fn insert_ranked<T: Ranked>(out: &mut Vec<T>, x: T)
    ensures
        final(out)@ == inserted(old(out)@, x, rank::<T>()),
{
    let ghost s = out@;
    let mut at: usize = out.len();
    assert(s.take(at as int) =~= s);
    assert(s.skip(at as int) =~= Seq::<T>::empty());
    while at > 0 && x.is_ahead(&out[at - 1])
        invariant
            out@ == s,
            at <= s.len(),
            inserted(s, x, rank::<T>()) =~= inserted(s.take(at as int), x, rank::<T>()) + s.skip(
                at as int,
            ),
        decreases at,
    {
        assert(s.take(at as int).drop_last() =~= s.take(at - 1));
        assert(s.skip(at - 1) =~= seq![s[at - 1]] + s.skip(at as int));
        at -= 1;
    }
    out.insert(at, x);
    assert(s.insert(at as int, x) =~= s.take(at as int).push(x) + s.skip(at as int));
}

/// Inserting adds the one element and loses nothing.
pub proof fn lemma_inserted_elements<T>(s: Seq<T>, x: T, before: spec_fn(T, T) -> bool)
    ensures
        inserted(s, x, before).to_multiset() == s.to_multiset().insert(x),
        inserted(s, x, before).len() == s.len() + 1,
    decreases s.len(),
{
    broadcast use vstd::seq_lib::group_to_multiset_ensures;

    if s.len() > 0 && before(x, s.last()) {
        lemma_inserted_elements(s.drop_last(), x, before);
        assert(s =~= s.drop_last().push(s.last()));
        assert(s.to_multiset() =~= s.drop_last().to_multiset().insert(s.last()));
        assert(inserted(s, x, before).to_multiset() =~= s.to_multiset().insert(x));
    }
}

/// Sorting moves elements about; it neither loses nor adds any.
pub proof fn sorting_keeps_elements<T>(s: Seq<T>, before: spec_fn(T, T) -> bool)
    ensures
        sorted(s, before).to_multiset() == s.to_multiset(),
        sorted(s, before).len() == s.len(),
    decreases s.len(),
{
    broadcast use vstd::seq_lib::group_to_multiset_ensures;

    if s.len() > 0 {
        sorting_keeps_elements(s.drop_last(), before);
        lemma_inserted_elements(sorted(s.drop_last(), before), s.last(), before);
        assert(s =~= s.drop_last().push(s.last()));
    }
}

/// What is sorted stands in the sorted sequence, and the other way round.
pub proof fn sorting_keeps_members<T>(s: Seq<T>, before: spec_fn(T, T) -> bool)
    ensures
        forall|x: T| #[trigger] s.contains(x) <==> sorted(s, before).contains(x),
{
    broadcast use vstd::seq_lib::group_to_multiset_ensures;

    sorting_keeps_elements(s, before);
    assert forall|x: T| #[trigger] s.contains(x) <==> sorted(s, before).contains(x) by {
        assert(s.to_multiset().count(x) == sorted(s, before).to_multiset().count(x));
    }
}

/// Inserting into an ordered sequence leaves it ordered.
proof fn lemma_inserted_ordered<T>(s: Seq<T>, x: T, before: spec_fn(T, T) -> bool)
    requires
        is_weak_order(before),
        forall|i: int, j: int| 0 <= i < j < s.len() ==> !before(#[trigger] s[j], #[trigger] s[i]),
    ensures
        forall|i: int, j: int|
            0 <= i < j < inserted(s, x, before).len() ==> !before(
                #[trigger] inserted(s, x, before)[j],
                #[trigger] inserted(s, x, before)[i],
            ),
        forall|i: int|
            0 <= i < inserted(s, x, before).len() ==> (#[trigger] inserted(s, x, before)[i] == x
                || s.contains(inserted(s, x, before)[i])),
    decreases s.len(),
{
    let r = inserted(s, x, before);
    if s.len() > 0 && before(x, s.last()) {
        let t = s.drop_last();
        lemma_inserted_ordered(t, x, before);
        lemma_inserted_elements(t, x, before);
        let u = inserted(t, x, before);
        assert forall|i: int| 0 <= i < r.len() implies (#[trigger] r[i] == x || s.contains(
            r[i],
        )) by {
            if i < u.len() {
                assert(r[i] == u[i]);
                if u[i] != x {
                    let k = choose|k: int| 0 <= k < t.len() && t[k] == u[i];
                    assert(s[k] == u[i]);
                }
            } else {
                assert(s[s.len() - 1] == r[i]);
            }
        }
        assert forall|i: int, j: int| 0 <= i < j < r.len() implies !before(
            #[trigger] r[j],
            #[trigger] r[i],
        ) by {
            if j < u.len() {
                assert(r[j] == u[j] && r[i] == u[i]);
            } else {
                assert(r[j] == s.last() && r[i] == u[i]);
                if u[i] != x {
                    let k = choose|k: int| 0 <= k < t.len() && t[k] == u[i];
                    assert(s[k] == u[i]);
                    assert(!before(s[s.len() - 1], s[k]));
                }
            }
        }
    } else {
        assert forall|i: int, j: int| 0 <= i < j < r.len() implies !before(
            #[trigger] r[j],
            #[trigger] r[i],
        ) by {
            if j == s.len() {
                if i < s.len() - 1 {
                    assert(!before(s[s.len() - 1], s[i]));
                    assert(!before(x, s.last()));
                }
            } else {
                assert(r[j] == s[j] && r[i] == s[i]);
            }
        }
        assert forall|i: int| 0 <= i < r.len() implies (#[trigger] r[i] == x || s.contains(
            r[i],
        )) by {
            if i < s.len() {
                assert(s[i] == r[i]);
            }
        }
    }
}

/// In a sorted sequence nothing has to come before what stands ahead of it.
pub proof fn sorting_orders<T>(s: Seq<T>, before: spec_fn(T, T) -> bool)
    requires
        is_weak_order(before),
    ensures
        forall|i: int, j: int|
            0 <= i < j < s.len() ==> !before(
                #[trigger] sorted(s, before)[j],
                #[trigger] sorted(s, before)[i],
            ),
    decreases s.len(),
{
    if s.len() > 0 {
        sorting_orders(s.drop_last(), before);
        sorting_keeps_elements(s.drop_last(), before);
        sorting_keeps_elements(s, before);
        lemma_inserted_ordered(sorted(s.drop_last(), before), s.last(), before);
    }
}

/// Inserting leaves elements that tie with each other in their order.
proof fn lemma_inserted_stable<T>(
    s: Seq<T>,
    x: T,
    before: spec_fn(T, T) -> bool,
    tied: spec_fn(T) -> bool,
)
    requires
        forall|a: T, b: T| tied(a) && tied(b) ==> !(#[trigger] before(a, b)),
    ensures
        inserted(s, x, before).filter(tied) == s.push(x).filter(tied),
    decreases s.len(),
{
    reveal(Seq::filter);
    if s.len() > 0 && before(x, s.last()) {
        let t = s.drop_last();
        lemma_inserted_stable(t, x, before, tied);
        let u = inserted(t, x, before);
        let r = inserted(s, x, before);
        assert(r == u.push(s.last()));
        assert(r.drop_last() =~= u);
        assert(s.push(x).drop_last() =~= s);
        assert(t.push(x).drop_last() =~= t);
        assert(!(tied(x) && tied(s.last())));
        assert(r.filter(tied) == if tied(s.last()) {
            u.filter(tied).push(s.last())
        } else {
            u.filter(tied)
        });
        assert(s.push(x).filter(tied) == if tied(x) {
            s.filter(tied).push(x)
        } else {
            s.filter(tied)
        });
        assert(t.push(x).filter(tied) == if tied(x) {
            t.filter(tied).push(x)
        } else {
            t.filter(tied)
        });
        assert(inserted(s, x, before).filter(tied) =~= s.push(x).filter(tied));
    }
}

/// Elements that tie with each other come out of sorting in the order in which they went in.
pub proof fn sorting_is_stable<T>(
    s: Seq<T>,
    before: spec_fn(T, T) -> bool,
    tied: spec_fn(T) -> bool,
)
    requires
        forall|a: T, b: T| tied(a) && tied(b) ==> !(#[trigger] before(a, b)),
    ensures
        sorted(s, before).filter(tied) == s.filter(tied),
    decreases s.len(),
{
    if s.len() > 0 {
        let t = s.drop_last();
        sorting_is_stable(t, before, tied);
        lemma_inserted_stable(sorted(t, before), s.last(), before, tied);
        reveal(Seq::filter);
        assert(sorted(t, before).push(s.last()).drop_last() =~= sorted(t, before));
        assert(sorted(t, before).push(s.last()).last() == s.last());
        assert(sorted(s, before).filter(tied) =~= s.filter(tied));
    }
}

/// Sorting commutes with a map that keeps the order.
pub proof fn lemma_sorted_map<T, U>(
    s: Seq<T>,
    f: spec_fn(T) -> U,
    before: spec_fn(T, T) -> bool,
    before_image: spec_fn(U, U) -> bool,
)
    requires
        forall|a: T, b: T| #[trigger] before(a, b) == before_image(f(a), f(b)),
    ensures
        sorted(s, before).map_values(f) == sorted(s.map_values(f), before_image),
    decreases s.len(),
{
    if s.len() > 0 {
        let t = s.drop_last();
        lemma_sorted_map(t, f, before, before_image);
        lemma_inserted_map(sorted(t, before), s.last(), f, before, before_image);
        assert(s.map_values(f).drop_last() =~= t.map_values(f));
    } else {
        assert(sorted(s, before).map_values(f) =~= sorted(s.map_values(f), before_image));
    }
}

proof fn lemma_inserted_map<T, U>(
    s: Seq<T>,
    x: T,
    f: spec_fn(T) -> U,
    before: spec_fn(T, T) -> bool,
    before_image: spec_fn(U, U) -> bool,
)
    requires
        forall|a: T, b: T| #[trigger] before(a, b) == before_image(f(a), f(b)),
    ensures
        inserted(s, x, before).map_values(f) == inserted(s.map_values(f), f(x), before_image),
    decreases s.len(),
{
    if s.len() > 0 && before(x, s.last()) {
        let t = s.drop_last();
        lemma_inserted_map(t, x, f, before, before_image);
        assert(s.map_values(f).drop_last() =~= t.map_values(f));
        assert(inserted(s, x, before).map_values(f) =~= inserted(t, x, before).map_values(f).push(
            f(s.last()),
        ));
    } else {
        assert(before(x, s.last()) == before_image(f(x), f(s.last())));
        assert(inserted(s, x, before).map_values(f) =~= inserted(
            s.map_values(f),
            f(x),
            before_image,
        ));
    }
}

} // verus!
