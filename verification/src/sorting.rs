//! Ordering entities by a key, the order of equals kept.

use vstd::prelude::*;
use crate::components::Entity;

verus! {

/// `sorted` with `x` put in behind everything whose key is no greater than
/// that of `x`.
pub open spec fn placed(sorted: Seq<(i128, Entity)>, x: (i128, Entity)) -> Seq<(i128, Entity)>
    decreases sorted.len(),
{
    if sorted.len() == 0 {
        seq![x]
    } else if sorted.last().0 <= x.0 {
        sorted.push(x)
    } else {
        placed(sorted.drop_last(), x).push(sorted.last())
    }
}

/// The entries ordered by their keys, smallest first; entries with the same
/// key keep the order in which they came.
pub open spec fn ascending(s: Seq<(i128, Entity)>) -> Seq<(i128, Entity)>
    decreases s.len(),
{
    if s.len() == 0 {
        Seq::empty()
    } else {
        placed(ascending(s.drop_last()), s.last())
    }
}

/// No entry comes before one with a smaller key.
pub open spec fn in_order(s: Seq<(i128, Entity)>) -> bool {
    forall|i: int, j: int| 0 <= i < j < s.len() ==> s[i].0 <= s[j].0
}

/// Putting an entry into an ordered list keeps the list ordered, makes it
/// one longer, and adds exactly that entry.
pub proof fn lemma_placed(sorted: Seq<(i128, Entity)>, x: (i128, Entity))
    requires
        in_order(sorted),
    ensures
        in_order(placed(sorted, x)),
        placed(sorted, x).len() == sorted.len() + 1,
        placed(sorted, x).to_multiset() == sorted.to_multiset().insert(x),
        forall|k: int| 0 <= k < placed(sorted, x).len() ==> #[trigger] placed(sorted, x)[k] == x
            || sorted.contains(placed(sorted, x)[k]),
    decreases sorted.len(),
{
    broadcast use vstd::seq_lib::group_to_multiset_ensures;
    if sorted.len() == 0 {
        assert(sorted =~= Seq::empty());
        assert(seq![x] =~= sorted.push(x));
    } else if sorted.last().0 <= x.0 {
        let p = sorted.push(x);
        assert forall|k: int| 0 <= k < p.len() implies #[trigger] p[k] == x || sorted.contains(p[k]) by {
            if k < sorted.len() {
                assert(sorted[k] == p[k]);
            }
        }
    } else {
        let front = sorted.drop_last();
        lemma_placed(front, x);
        let q = placed(front, x);
        let p = q.push(sorted.last());
        assert(sorted =~= front.push(sorted.last()));
        assert forall|i: int, j: int| 0 <= i < j < p.len() implies p[i].0 <= p[j].0 by {
            if j == q.len() {
                if q[i] != x {
                    assert(front.contains(q[i]));
                    let k = choose|k: int| 0 <= k < front.len() && front[k] == q[i];
                    assert(sorted[k] == q[i]);
                }
            }
        }
        assert(p.to_multiset() =~= sorted.to_multiset().insert(x));
        assert forall|k: int| 0 <= k < p.len() implies #[trigger] p[k] == x || sorted.contains(p[k]) by {
            if k < q.len() {
                if q[k] != x {
                    assert(front.contains(q[k]));
                    let m = choose|m: int| 0 <= m < front.len() && front[m] == q[k];
                    assert(sorted[m] == q[k]);
                }
            } else {
                assert(sorted[sorted.len() - 1] == p[k]);
            }
        }
    }
}

/// Ordering yields an ordered list of the same entries.
pub proof fn lemma_ascending(s: Seq<(i128, Entity)>)
    ensures
        in_order(ascending(s)),
        ascending(s).len() == s.len(),
        ascending(s).to_multiset() == s.to_multiset(),
    decreases s.len(),
{
    broadcast use vstd::seq_lib::group_to_multiset_ensures;
    if s.len() == 0 {
        assert(s =~= Seq::empty());
    } else {
        lemma_ascending(s.drop_last());
        lemma_placed(ascending(s.drop_last()), s.last());
        assert(s =~= s.drop_last().push(s.last()));
    }
}

/// The entries of `s` that have the key `key`, in their order.
pub open spec fn with_key(s: Seq<(i128, Entity)>, key: i128) -> Seq<(i128, Entity)> {
    s.filter(|e: (i128, Entity)| e.0 == key)
}

/// Among the entries with one key, a list with one more entry at its end
/// has that entry last, if it has the key, and is otherwise unchanged.
pub proof fn lemma_with_key_push(s: Seq<(i128, Entity)>, x: (i128, Entity), key: i128)
    ensures
        with_key(s.push(x), key) == (if x.0 == key {
            with_key(s, key).push(x)
        } else {
            with_key(s, key)
        }),
{
    reveal_with_fuel(Seq::filter, 1);
    assert(s.push(x).drop_last() =~= s);
}

/// Putting an entry into a list leaves the entries with any one key in
/// their order, the new entry behind those that have its key.
pub proof fn lemma_placed_with_key(sorted: Seq<(i128, Entity)>, x: (i128, Entity), key: i128)
    ensures
        with_key(placed(sorted, x), key) == (if x.0 == key {
            with_key(sorted, key).push(x)
        } else {
            with_key(sorted, key)
        }),
    decreases sorted.len(),
{
    if sorted.len() == 0 {
        assert(sorted =~= Seq::empty());
        assert(seq![x] =~= sorted.push(x));
        lemma_with_key_push(sorted, x, key);
    } else if sorted.last().0 <= x.0 {
        lemma_with_key_push(sorted, x, key);
    } else {
        let front = sorted.drop_last();
        lemma_placed_with_key(front, x, key);
        lemma_with_key_push(placed(front, x), sorted.last(), key);
        lemma_with_key_push(front, sorted.last(), key);
        assert(sorted =~= front.push(sorted.last()));
    }
}

/// Ordering is stable: the entries with any one key come in the order in
/// which they came before.
pub proof fn lemma_ascending_is_stable(s: Seq<(i128, Entity)>, key: i128)
    ensures
        with_key(ascending(s), key) == with_key(s, key),
    decreases s.len(),
{
    if s.len() == 0 {
        assert(s =~= Seq::empty());
    } else {
        lemma_ascending_is_stable(s.drop_last(), key);
        lemma_placed_with_key(ascending(s.drop_last()), s.last(), key);
        lemma_with_key_push(s.drop_last(), s.last(), key);
        assert(s =~= s.drop_last().push(s.last()));
    }
}

/// Puts `x` into the ordered list `out`.
fn place(out: &mut Vec<(i128, Entity)>, x: (i128, Entity))
    ensures
        final(out)@ == placed(old(out)@, x),
{
    let mut pos = out.len();
    assert(old(out)@.take(pos as int) =~= old(out)@);
    assert(old(out)@.skip(pos as int) =~= Seq::empty());
    assert(placed(old(out)@, x) =~= placed(old(out)@.take(pos as int), x) + old(out)@.skip(pos as int));
    while pos > 0 && out[pos - 1].0 > x.0
        invariant
            pos <= out.len(),
            out@ == old(out)@,
            placed(old(out)@, x) == placed(old(out)@.take(pos as int), x) + old(out)@.skip(pos as int),
        decreases pos,
    {
        proof {
            let head = out@.take(pos as int);
            assert(head.drop_last() =~= out@.take(pos - 1));
            assert(head.last() == out@[pos - 1]);
            assert(placed(head, x) == placed(out@.take(pos - 1), x).push(out@[pos - 1]));
            assert(placed(out@.take(pos - 1), x).push(out@[pos - 1]) + out@.skip(pos as int)
                =~= placed(out@.take(pos - 1), x) + out@.skip(pos - 1));
        }
        pos = pos - 1;
    }
    proof {
        let head = out@.take(pos as int);
        if pos == 0 {
            assert(head =~= Seq::empty());
            assert(placed(head, x) =~= seq![x]);
        } else {
            assert(head.last() == out@[pos - 1]);
            assert(placed(head, x) == head.push(x));
        }
        assert(placed(head, x) + out@.skip(pos as int) =~= out@.insert(pos as int, x));
    }
    out.insert(pos, x);
}

/// Orders entries by their keys, smallest first, keeping the order of those
/// with the same key.
pub fn sort_ascending(list: &Vec<(i128, Entity)>) -> (sorted: Vec<(i128, Entity)>)
    ensures
        sorted@ == ascending(list@),
{
    let mut sorted: Vec<(i128, Entity)> = Vec::new();
    let mut k: usize = 0;
    assert(list@.take(0) =~= Seq::empty());
    while k < list.len()
        invariant
            k <= list.len(),
            sorted@ == ascending(list@.take(k as int)),
        decreases list.len() - k,
    {
        assert(list@.take(k + 1).drop_last() =~= list@.take(k as int));
        place(&mut sorted, list[k]);
        k = k + 1;
    }
    assert(list@.take(k as int) =~= list@);
    sorted
}

} // verus!
