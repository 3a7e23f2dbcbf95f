//! Stable ordering of timed items by their tick, as `sort_by_key` orders them.

use vstd::prelude::*;

verus! {

/// Items with their ticks as integers.
pub open spec fn ticks_of<T>(s: Seq<(u128, T)>) -> Seq<(int, T)> {
    s.map_values(|p: (u128, T)| (p.0 as int, p.1))
}

/// `s` with `x` put after every item whose tick is not later than its own,
/// counted from the end: the step of a stable insertion sort.
pub open spec fn insert_by_tick<T>(s: Seq<(int, T)>, x: (int, T)) -> Seq<(int, T)>
    decreases s.len(),
{
    if s.len() == 0 || s.last().0 <= x.0 {
        s.push(x)
    } else {
        insert_by_tick(s.drop_last(), x).push(s.last())
    }
}

/// `s` ordered by tick; items with equal ticks keep their order.
pub open spec fn sort_by_tick<T>(s: Seq<(int, T)>) -> Seq<(int, T)>
    decreases s.len(),
{
    if s.len() == 0 {
        s
    } else {
        insert_by_tick(sort_by_tick(s.drop_last()), s.last())
    }
}

/// The ticks of `s` never decrease.
pub open spec fn tick_sorted<T>(s: Seq<(int, T)>) -> bool {
    forall|i: int, j: int| 0 <= i < j < s.len() ==> s[i].0 <= s[j].0
}

proof fn lemma_insert_split<T>(s: Seq<(int, T)>, x: (int, T), j: int)
    requires
        0 <= j <= s.len(),
        forall|k: int| j <= k < s.len() ==> s[k].0 > x.0,
        j == 0 || s[j - 1].0 <= x.0,
    ensures
        insert_by_tick(s, x) == s.take(j).push(x) + s.skip(j),
    decreases s.len(),
{
    if s.len() == 0 || s.last().0 <= x.0 {
        assert(j == s.len());
        assert(s.take(j) =~= s);
        assert(s.skip(j) =~= Seq::<(int, T)>::empty());
        assert(s.take(j).push(x) + s.skip(j) =~= s.push(x));
    } else {
        lemma_insert_split(s.drop_last(), x, j);
        assert(s.drop_last().take(j) =~= s.take(j));
        assert(s.drop_last().skip(j).push(s.last()) =~= s.skip(j));
        assert((s.take(j).push(x) + s.drop_last().skip(j)).push(s.last()) =~= s.take(j).push(x)
            + s.skip(j));
    }
}

/// Orders timed items by tick, keeping the order of items with equal ticks.
pub fn sort_by_tick_stable<T: Copy>(v: &Vec<(u128, T)>) -> (r: Vec<(u128, T)>)
    ensures
        ticks_of(r@) == sort_by_tick(ticks_of(v@)),
{
    let mut r: Vec<(u128, T)> = Vec::new();
    let mut i: usize = 0;
    while i < v.len()
        invariant
            i <= v.len(),
            ticks_of(r@) == sort_by_tick(ticks_of(v@.take(i as int))),
        decreases v.len() - i,
    {
        let x = v[i];
        let ghost s = ticks_of(r@);
        let ghost xs = (x.0 as int, x.1);
        let mut j: usize = r.len();
        loop
            invariant
                j <= r.len(),
                s == ticks_of(r@),
                xs == (x.0 as int, x.1),
                forall|k: int| j <= k < r.len() ==> s[k].0 > xs.0,
            ensures
                j <= r.len(),
                forall|k: int| j <= k < r.len() ==> s[k].0 > xs.0,
                j == 0 || s[j - 1].0 <= xs.0,
            decreases j,
        {
            if j == 0 {
                break;
            }
            assert(s[j - 1] == (r@[j - 1].0 as int, r@[j - 1].1));
            if r[j - 1].0 <= x.0 {
                break;
            }
            j = j - 1;
        }
        proof {
            lemma_insert_split(s, xs, j as int);
        }
        let ghost old_r = r@;
        r.insert(j, x);
        proof {
            assert(ticks_of(r@) =~= s.take(j as int).push(xs) + s.skip(j as int));
            assert(ticks_of(v@.take(i + 1)).drop_last() =~= ticks_of(v@.take(i as int)));
            assert(ticks_of(v@.take(i + 1)).last() == xs);
        }
        i = i + 1;
    }
    assert(v@.take(v.len() as int) =~= v@);
    r
}

/// Inserting into an ordered sequence keeps it ordered.
proof fn lemma_insert_sorted<T>(s: Seq<(int, T)>, x: (int, T))
    requires
        tick_sorted(s),
    ensures
        tick_sorted(insert_by_tick(s, x)),
        insert_by_tick(s, x).to_multiset() == s.to_multiset().insert(x),
    decreases s.len(),
{
    if s.len() == 0 || s.last().0 <= x.0 {
        s.to_multiset_ensures();
        let t = s.push(x);
        assert forall|i: int, j: int| 0 <= i < j < t.len() implies t[i].0 <= t[j].0 by {
            if j == s.len() {
                assert(s[i].0 <= s.last().0);
            }
        }
    } else {
        let p = s.drop_last();
        assert(tick_sorted(p));
        lemma_insert_sorted(p, x);
        let q = insert_by_tick(p, x);
        let t = q.push(s.last());
        q.to_multiset_ensures();
        s.to_multiset_ensures();
        p.to_multiset_ensures();
        assert(s =~= p.push(s.last()));
        assert forall|i: int, j: int| 0 <= i < j < t.len() implies t[i].0 <= t[j].0 by {
            if j == q.len() {
                assert(q.to_multiset().count(q[i]) > 0);
                assert(p.to_multiset().insert(x).count(q[i]) > 0);
                if q[i] != x {
                    assert(p.to_multiset().count(q[i]) > 0);
                    assert(p.contains(q[i]));
                    let k = choose|k: int| 0 <= k < p.len() && p[k] == q[i];
                    assert(s[k].0 <= s[s.len() - 1].0);
                }
            }
        }
        assert(t.to_multiset() =~= s.to_multiset().insert(x));
    }
}

/// Law: ordering by tick yields an ordered sequence that holds exactly the
/// items it was given.
pub proof fn law_sort_by_tick_sorted_permutation<T>(s: Seq<(int, T)>)
    ensures
        tick_sorted(sort_by_tick(s)),
        sort_by_tick(s).to_multiset() == s.to_multiset(),
    decreases s.len(),
{
    if s.len() == 0 {
    } else {
        law_sort_by_tick_sorted_permutation(s.drop_last());
        lemma_insert_sorted(sort_by_tick(s.drop_last()), s.last());
        s.drop_last().to_multiset_ensures();
        assert(s =~= s.drop_last().push(s.last()));
        s.to_multiset_ensures();
    }
}

/// The items of `s` at tick `k`, in their order in `s`.
pub open spec fn at_tick<T>(s: Seq<(int, T)>, k: int) -> Seq<(int, T)> {
    s.filter(|e: (int, T)| e.0 == k)
}

/// Inserting `x` adds it after the items of its own tick and leaves the
/// items of every other tick as they were.
proof fn lemma_insert_at_tick<T>(s: Seq<(int, T)>, x: (int, T), k: int)
    ensures
        at_tick(insert_by_tick(s, x), k) == if x.0 == k {
            at_tick(s, k).push(x)
        } else {
            at_tick(s, k)
        },
    decreases s.len(),
{
    reveal(Seq::filter);
    if s.len() == 0 || s.last().0 <= x.0 {
        assert(s.push(x).drop_last() =~= s);
    } else {
        lemma_insert_at_tick(s.drop_last(), x, k);
        let t = insert_by_tick(s.drop_last(), x);
        assert(t.push(s.last()).drop_last() =~= t);
    }
}

/// Law: ordering by tick is stable: the items of each tick come out in the
/// order they were given.
pub proof fn law_sort_by_tick_is_stable<T>(s: Seq<(int, T)>, k: int)
    ensures
        at_tick(sort_by_tick(s), k) == at_tick(s, k),
    decreases s.len(),
{
    reveal(Seq::filter);
    if s.len() > 0 {
        law_sort_by_tick_is_stable(s.drop_last(), k);
        lemma_insert_at_tick(sort_by_tick(s.drop_last()), s.last(), k);
    }
}

} // verus!
