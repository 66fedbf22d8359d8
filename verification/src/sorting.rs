//! Sorting by a key, where items with one key keep their order.

use vstd::prelude::*;

verus! {

/// `s` with `x` put in behind the last item that has no larger key.
pub open spec fn inserted<T>(s: Seq<T>, x: T, key: spec_fn(T) -> int) -> Seq<T>
    decreases s.len(),
{
    if s.len() == 0 || key(s.last()) <= key(x) {
        s.push(x)
    } else {
        inserted(s.drop_last(), x, key).push(s.last())
    }
}

/// The items of `s` from the smallest key to the largest; those with one key stay in the
/// order in which they stand.
pub open spec fn stable_sorted<T>(s: Seq<T>, key: spec_fn(T) -> int) -> Seq<T>
    decreases s.len(),
{
    if s.len() == 0 {
        s
    } else {
        inserted(stable_sorted(s.drop_last(), key), s.last(), key)
    }
}

/// Whether the keys of `s` never fall.
pub open spec fn in_order<T>(s: Seq<T>, key: spec_fn(T) -> int) -> bool {
    forall|i: int, j: int| 0 <= i <= j < s.len() ==> key(#[trigger] s[i]) <= key(#[trigger] s[j])
}

/// Something that has a place in an order.
pub trait Keyed: Sized {
    spec fn key(&self) -> int;

    /// Whether this comes behind the other.
    fn is_after(&self, other: &Self) -> (r: bool)
        ensures
            r == (self.key() > other.key()),
    ;
}

pub open spec fn key_of<T: Keyed>() -> spec_fn(T) -> int {
    |x: T| x.key()
}

proof fn lemma_inserted<T>(s: Seq<T>, x: T, key: spec_fn(T) -> int)
    requires
        in_order(s, key),
    ensures
        in_order(inserted(s, x, key), key),
        inserted(s, x, key).len() == s.len() + 1,
        inserted(s, x, key).to_multiset() =~= s.to_multiset().insert(x),
    decreases s.len(),
{
    broadcast use vstd::seq_lib::group_to_multiset_ensures;

    if s.len() == 0 || key(s.last()) <= key(x) {
        let r = s.push(x);
        assert forall|i: int, j: int| 0 <= i <= j < r.len() implies key(#[trigger] r[i]) <= key(
            #[trigger] r[j],
        ) by {
            if j == s.len() && i < s.len() {
                assert(key(s[i]) <= key(s[s.len() - 1]));
            }
        }
    } else {
        let front = s.drop_last();
        let inner = inserted(front, x, key);
        lemma_inserted(front, x, key);
        let r = inner.push(s.last());
        assert(s =~= front.push(s.last()));
        assert forall|i: int| 0 <= i < inner.len() implies key(#[trigger] inner[i]) <= key(
            s.last(),
        ) by {
            assert(inner.to_multiset().contains(inner[i]));
            if inner[i] != x {
                assert(front.to_multiset().contains(inner[i]));
                let k = choose|k: int| 0 <= k < front.len() && front[k] == inner[i];
                assert(key(s[k]) <= key(s[s.len() - 1]));
            }
        }
        assert(in_order(r, key)) by {
            assert forall|i: int, j: int| 0 <= i <= j < r.len() implies key(#[trigger] r[i])
                <= key(#[trigger] r[j]) by {
                if j < inner.len() {
                    assert(r[i] == inner[i] && r[j] == inner[j]);
                } else if i < inner.len() {
                    assert(r[i] == inner[i]);
                }
            }
        }
    }
}

/// Sorting orders the items by their key, and neither loses nor adds any.
pub proof fn lemma_sorted<T>(s: Seq<T>, key: spec_fn(T) -> int)
    ensures
        in_order(stable_sorted(s, key), key),
        stable_sorted(s, key).len() == s.len(),
        stable_sorted(s, key).to_multiset() == s.to_multiset(),
    decreases s.len(),
{
    broadcast use vstd::seq_lib::group_to_multiset_ensures;

    if s.len() > 0 {
        lemma_sorted(s.drop_last(), key);
        lemma_inserted(stable_sorted(s.drop_last(), key), s.last(), key);
        assert(s =~= s.drop_last().push(s.last()));
    }
}

/// What is in order stays as it is.
pub proof fn lemma_sorted_already<T>(s: Seq<T>, key: spec_fn(T) -> int)
    requires
        in_order(s, key),
    ensures
        stable_sorted(s, key) == s,
    decreases s.len(),
{
    if s.len() > 0 {
        let front = s.drop_last();
        lemma_sorted_already(front, key);
        if front.len() > 0 {
            assert(key(s[front.len() - 1]) <= key(s[s.len() - 1]));
        }
        assert(s =~= front.push(s.last()));
    }
}

/// Of the items that share a key, sorting keeps the order.
pub proof fn lemma_sorted_is_stable<T>(s: Seq<T>, key: spec_fn(T) -> int, k: int)
    ensures
        stable_sorted(s, key).filter(|x: T| key(x) == k) == s.filter(|x: T| key(x) == k),
    decreases s.len(),
{
    let same = |x: T| key(x) == k;
    reveal(Seq::filter);
    if s.len() > 0 {
        lemma_sorted_is_stable(s.drop_last(), key, k);
        lemma_sorted(s.drop_last(), key);
        lemma_insertion_is_stable(stable_sorted(s.drop_last(), key), s.last(), key, k);
    }
}

proof fn lemma_insertion_is_stable<T>(s: Seq<T>, x: T, key: spec_fn(T) -> int, k: int)
    requires
        in_order(s, key),
    ensures
        inserted(s, x, key).filter(|y: T| key(y) == k) == (if key(x) == k {
            s.filter(|y: T| key(y) == k).push(x)
        } else {
            s.filter(|y: T| key(y) == k)
        }),
    decreases s.len(),
{
    let same = |y: T| key(y) == k;
    reveal(Seq::filter);
    if s.len() == 0 || key(s.last()) <= key(x) {
        assert(s.push(x).drop_last() =~= s);
    } else {
        let front = s.drop_last();
        lemma_insertion_is_stable(front, x, key, k);
        let r = inserted(front, x, key).push(s.last());
        assert(r.drop_last() =~= inserted(front, x, key));
        if key(x) == k {
            assert(!same(s.last()));
        }
    }
}

/// Sorting commutes with a change of the items that keeps their keys.
pub proof fn lemma_sorted_map<T, U>(
    s: Seq<T>,
    key: spec_fn(T) -> int,
    f: spec_fn(T) -> U,
    ukey: spec_fn(U) -> int,
)
    requires
        forall|i: int| 0 <= i < s.len() ==> key(#[trigger] s[i]) == ukey(f(s[i])),
    ensures
        stable_sorted(s, key).map_values(f) == stable_sorted(s.map_values(f), ukey),
    decreases s.len(),
{
    if s.len() == 0 {
        assert(s.map_values(f) =~= Seq::<U>::empty());
    } else {
        let front = s.drop_last();
        assert forall|i: int| 0 <= i < front.len() implies key(#[trigger] front[i]) == ukey(
            f(front[i]),
        ) by {
            assert(front[i] == s[i]);
        }
        lemma_sorted_map(front, key, f, ukey);
        lemma_sorted(front, key);
        let sorted = stable_sorted(front, key);
        assert forall|i: int| 0 <= i < sorted.len() implies key(#[trigger] sorted[i]) == ukey(
            f(sorted[i]),
        ) by {
            broadcast use vstd::seq_lib::group_to_multiset_ensures;

            assert(sorted.to_multiset().contains(sorted[i]));
            assert(front.to_multiset().contains(sorted[i]));
            let j = choose|j: int| 0 <= j < front.len() && front[j] == sorted[i];
            assert(s[j] == sorted[i]);
        }
        assert(s.last() == s[s.len() - 1]);
        lemma_inserted_map(sorted, s.last(), key, f, ukey);
        assert(s.map_values(f).drop_last() =~= front.map_values(f));
        assert(s.map_values(f).last() == f(s.last()));
    }
}

proof fn lemma_inserted_map<T, U>(
    s: Seq<T>,
    x: T,
    key: spec_fn(T) -> int,
    f: spec_fn(T) -> U,
    ukey: spec_fn(U) -> int,
)
    requires
        forall|i: int| 0 <= i < s.len() ==> key(#[trigger] s[i]) == ukey(f(s[i])),
        key(x) == ukey(f(x)),
    ensures
        inserted(s, x, key).map_values(f) == inserted(s.map_values(f), f(x), ukey),
    decreases s.len(),
{
    if s.len() == 0 {
        assert(s.push(x).map_values(f) =~= s.map_values(f).push(f(x)));
    } else {
        assert(s.last() == s[s.len() - 1]);
        assert(s.map_values(f).last() == f(s.last()));
        if key(s.last()) <= key(x) {
            assert(s.push(x).map_values(f) =~= s.map_values(f).push(f(x)));
        } else {
            let front = s.drop_last();
            assert forall|i: int| 0 <= i < front.len() implies key(#[trigger] front[i]) == ukey(
                f(front[i]),
            ) by {
                assert(front[i] == s[i]);
            }
            lemma_inserted_map(front, x, key, f, ukey);
            assert(s.map_values(f).drop_last() =~= front.map_values(f));
            assert(inserted(front, x, key).push(s.last()).map_values(f) =~= inserted(
                front,
                x,
                key,
            ).map_values(f).push(f(s.last())));
        }
    }
}

/// Where an item is put in.
proof fn lemma_inserted_at<T>(s: Seq<T>, x: T, key: spec_fn(T) -> int, at: int)
    requires
        0 <= at <= s.len(),
        forall|i: int| at <= i < s.len() ==> key(#[trigger] s[i]) > key(x),
        at > 0 ==> key(s[at - 1]) <= key(x),
    ensures
        inserted(s, x, key) == s.insert(at, x),
    decreases s.len(),
{
    if at == s.len() {
        assert(s.insert(at, x) =~= s.push(x));
        if s.len() > 0 {
            assert(s.last() == s[at - 1]);
        }
    } else {
        let front = s.drop_last();
        assert(key(s[s.len() - 1]) > key(x));
        assert forall|i: int| at <= i < front.len() implies key(#[trigger] front[i]) > key(x) by {
            assert(front[i] == s[i]);
        }
        lemma_inserted_at(front, x, key, at);
        assert(s.insert(at, x) =~= front.insert(at, x).push(s.last()));
    }
}

/// Sorts by the items' own key.
pub fn sort<T: Keyed>(v: &mut Vec<T>)
    ensures
        final(v)@ == stable_sorted(old(v)@, key_of::<T>()),
{
    let ghost start = v@;
    let ghost key = key_of::<T>();
    let mut i: usize = 0;
    proof {
        assert(start.take(0) =~= Seq::<T>::empty());
    }
    while i < v.len()
        invariant
            i <= v@.len(),
            v@.len() == start.len(),
            key == key_of::<T>(),
            v@.take(i as int) == stable_sorted(start.take(i as int), key),
            v@.skip(i as int) == start.skip(i as int),
        decreases v@.len() - i,
    {
        let ghost done = v@.take(i as int);
        let ghost x = v@[i as int];
        let ghost whole = v@;
        proof {
            assert(x == start.skip(i as int)[0]);
            assert(start.take(i + 1).drop_last() =~= start.take(i as int));
            assert(start.take(i + 1).last() == x);
        }
        let mut at: usize = i;
        while at > 0 && v[at - 1].is_after(&v[i])
            invariant
                at <= i < v@.len(),
                v@ == whole,
                done == whole.take(i as int),
                x == whole[i as int],
                key == key_of::<T>(),
                forall|k: int| at <= k < i ==> key(#[trigger] done[k]) > key(x),
            decreases at,
        {
            at = at - 1;
            assert(done[at as int] == whole[at as int]);
        }
        proof {
            if at > 0 {
                assert(done[at - 1] == whole[at - 1]);
            }
            lemma_inserted_at(done, x, key, at as int);
        }
        let moved = v.remove(i);
        v.insert(at, moved);
        proof {
            assert(v@.take(i + 1) =~= done.insert(at as int, x));
            assert(v@.skip(i + 1) =~= whole.skip(i + 1));
            assert(whole.skip(i + 1) =~= whole.skip(i as int).skip(1));
            assert(start.skip(i + 1) =~= start.skip(i as int).skip(1));
        }
        i = i + 1;
    }
    proof {
        assert(v@.take(i as int) =~= v@);
        assert(start.take(i as int) =~= start);
    }
}

} // verus!
