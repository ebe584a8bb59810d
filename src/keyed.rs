use vstd::prelude::*;

use crate::env::pair_views;
use crate::value::{views, Value, ValueV};

verus! {

/// A set's elements after inserting `v`: kept as they are where `v` is
/// already there, else `v` added at the end.
pub open spec fn with_element(s: Seq<ValueV>, v: ValueV) -> Seq<ValueV> {
    if s.contains(v) {
        s
    } else {
        s.push(v)
    }
}

/// The first position at or after `i` whose key is `k`.
pub open spec fn key_pos(m: Seq<(ValueV, ValueV)>, k: ValueV, i: int) -> Option<int>
    decreases m.len() - i,
{
    if i < 0 || i >= m.len() {
        None
    } else if m[i].0 == k {
        Some(i)
    } else {
        key_pos(m, k, i + 1)
    }
}

/// A map's entries after inserting `k` with `v`: the entry of key `k` takes
/// the value `v` where there is one, else the entry is added at the end.
pub open spec fn with_entry(m: Seq<(ValueV, ValueV)>, k: ValueV, v: ValueV) -> Seq<
    (ValueV, ValueV),
> {
    match key_pos(m, k, 0) {
        Some(i) => m.update(i, (k, v)),
        None => m.push((k, v)),
    }
}

/// The set built by inserting `vs` in order into an empty set.
pub open spec fn set_from(vs: Seq<ValueV>) -> Seq<ValueV>
    decreases vs.len(),
{
    if vs.len() == 0 {
        Seq::empty()
    } else {
        with_element(set_from(vs.drop_last()), vs.last())
    }
}

/// The map built by inserting the pairs `ps` in order into an empty map.
pub open spec fn map_from(ps: Seq<(ValueV, ValueV)>) -> Seq<(ValueV, ValueV)>
    decreases ps.len(),
{
    if ps.len() == 0 {
        Seq::empty()
    } else {
        with_entry(map_from(ps.drop_last()), ps.last().0, ps.last().1)
    }
}

proof fn lemma_key_pos(m: Seq<(ValueV, ValueV)>, k: ValueV, i: int)
    requires
        0 <= i,
    ensures
        key_pos(m, k, i) matches Some(j) ==> i <= j < m.len() && m[j].0 == k,
        key_pos(m, k, i) is None ==> forall|j: int| i <= j < m.len() ==> m[j].0 != k,
    decreases m.len() - i,
{
    if i < m.len() && m[i].0 != k {
        lemma_key_pos(m, k, i + 1);
    }
}

/// Inserts `v` into the set held by `s`; an element equal to `v` is
/// replaced by it.
pub fn insert_element(s: &mut Vec<Value>, v: Value)
    ensures
        views(final(s)@) == with_element(views(old(s)@), v@),
{
    let mut i: usize = 0;
    while i < s.len()
        invariant
            i <= s@.len(),
            s@ == old(s)@,
            forall|j: int| 0 <= j < i ==> views(s@)[j] != v@,
        decreases s@.len() - i,
    {
        if s[i].same(&v) {
            let ghost before = views(s@);
            proof {
                assert(before[i as int] == v@);
                assert(before.contains(v@));
            }
            s.set(i, v);
            proof {
                assert(views(s@) =~= before);
            }
            return;
        }
        i = i + 1;
    }
    proof {
        assert(!views(s@).contains(v@));
        assert(views(s@.push(v)) =~= views(s@).push(v@));
    }
    s.push(v);
}

/// Inserts `k` with `v` into the map held by `m`.
pub fn insert_entry(m: &mut Vec<(Value, Value)>, k: Value, v: Value)
    ensures
        pair_views(final(m)@) == with_entry(pair_views(old(m)@), k@, v@),
{
    let ghost pm = pair_views(m@);
    let mut i: usize = 0;
    while i < m.len()
        invariant
            i <= m@.len(),
            pm == pair_views(m@),
            m@ == old(m)@,
            key_pos(pm, k@, 0) == key_pos(pm, k@, i as int),
        decreases m@.len() - i,
    {
        if m[i].0.same(&k) {
            proof {
                assert(pm[i as int].0 == k@);
                assert(key_pos(pm, k@, i as int) == Some(i as int));
            }
            m.set(i, (k, v));
            proof {
                assert(pair_views(m@) =~= pm.update(i as int, (k@, v@)));
                assert(key_pos(pm, k@, 0) == Some(i as int));
                assert(pair_views(m@) == with_entry(pm, k@, v@));
            }
            return;
        }
        proof {
            assert(pm[i as int].0 != k@);
        }
        i = i + 1;
    }
    proof {
        assert(key_pos(pm, k@, i as int) is None);
        assert(pair_views(m@.push((k, v))) =~= pm.push((k@, v@)));
    }
    m.push((k, v));
}

/// A set built from a sequence of values holds each of them exactly once,
/// and nothing else.
pub proof fn lemma_set_from(vs: Seq<ValueV>)
    ensures
        elements_unique(set_from(vs)),
        forall|x: ValueV| set_from(vs).contains(x) <==> vs.contains(x),
    decreases vs.len(),
{
    if vs.len() > 0 {
        let pre = vs.drop_last();
        let s0 = set_from(pre);
        let x = vs.last();
        lemma_set_from(pre);
        assert(set_from(vs) == with_element(s0, x));
        assert forall|y: ValueV| vs.contains(y) implies #[trigger] set_from(vs).contains(y) by {
            let j = choose|j: int| 0 <= j < vs.len() && vs[j] == y;
            if j < vs.len() - 1 {
                assert(pre[j] == y);
                assert(pre.contains(y));
                assert(s0.contains(y));
                let i = choose|i: int| 0 <= i < s0.len() && s0[i] == y;
                assert(set_from(vs)[i] == y);
            } else if !s0.contains(x) {
                assert(set_from(vs)[s0.len() as int] == y);
            }
        }
        assert forall|y: ValueV| set_from(vs).contains(y) implies #[trigger] vs.contains(y) by {
            let i = choose|i: int| 0 <= i < set_from(vs).len() && set_from(vs)[i] == y;
            if i < s0.len() {
                assert(s0[i] == y);
                assert(s0.contains(y));
                assert(pre.contains(y));
                let j = choose|j: int| 0 <= j < pre.len() && pre[j] == y;
                assert(vs[j] == y);
            } else {
                assert(vs[vs.len() - 1] == y);
            }
        }
        assert forall|i: int, j: int| 0 <= i < j < set_from(vs).len() implies set_from(vs)[i] != set_from(vs)[j] by {
            if j == s0.len() {
                assert(!s0.contains(x));
                assert(s0[i] != x);
            }
        }
    }
}

/// No element occurs twice.
pub open spec fn elements_unique(s: Seq<ValueV>) -> bool {
    forall|i: int, j: int| 0 <= i < j < s.len() ==> s[i] != s[j]
}

/// No two entries share a key.
#[verifier::opaque]
pub open spec fn keys_unique(m: Seq<(ValueV, ValueV)>) -> bool {
    forall|i: int, j: int| 0 <= i < j < m.len() ==> m[i].0 != m[j].0
}

/// Every key among the pairs `ps` has an entry in `m`.
#[verifier::opaque]
pub open spec fn keys_kept(ps: Seq<(ValueV, ValueV)>, m: Seq<(ValueV, ValueV)>) -> bool {
    forall|j: int|
        0 <= j < ps.len() ==> exists|i: int| 0 <= i < m.len() && m[i].0 == #[trigger] ps[j].0
}

/// Every entry of `m` is the last pair among `ps` with its key.
#[verifier::opaque]
pub open spec fn last_wins(ps: Seq<(ValueV, ValueV)>, m: Seq<(ValueV, ValueV)>) -> bool {
    forall|i: int|
        0 <= i < m.len() ==> exists|j: int|
            0 <= j < ps.len() && ps[j] == #[trigger] m[i] && forall|l: int|
                j < l < ps.len() ==> ps[l].0 != m[i].0
}

/// What inserting into a map does, position by position: the entry at
/// `q` holds the new pair, and every other position is as it was and has
/// another key.
spec fn entry_placed(m0: Seq<(ValueV, ValueV)>, m: Seq<(ValueV, ValueV)>, k: ValueV, v: ValueV, q: int) -> bool {
    &&& 0 <= q <= m0.len()
    &&& q < m0.len() ==> m.len() == m0.len() && m0[q].0 == k
    &&& q == m0.len() ==> m.len() == m0.len() + 1
    &&& m[q] == (k, v)
    &&& forall|i: int| 0 <= i < m.len() && i != q ==> m[i] == m0[i] && m0[i].0 != k
}

proof fn lemma_entry_placed(m0: Seq<(ValueV, ValueV)>, k: ValueV, v: ValueV) -> (q: int)
    requires
        keys_unique(m0),
    ensures
        entry_placed(m0, with_entry(m0, k, v), k, v, q),
{
    reveal(keys_unique);
    lemma_key_pos(m0, k, 0);
    let m = with_entry(m0, k, v);
    match key_pos(m0, k, 0) {
        Some(p) => {
            assert(m == m0.update(p, (k, v)));
            assert forall|i: int| 0 <= i < m.len() && i != p implies m[i] == m0[i] && m0[i].0 != k by {
                if i < p {
                    assert(m0[i].0 != m0[p].0);
                } else {
                    assert(m0[p].0 != m0[i].0);
                }
            }
            p
        },
        None => {
            assert(m == m0.push((k, v)));
            m0.len() as int
        },
    }
}

proof fn lemma_step_unique(m0: Seq<(ValueV, ValueV)>, m: Seq<(ValueV, ValueV)>, k: ValueV, v: ValueV, q: int)
    requires
        keys_unique(m0),
        entry_placed(m0, m, k, v, q),
    ensures
        keys_unique(m),
{
    reveal(keys_unique);
    assert forall|i: int, j: int| 0 <= i < j < m.len() implies m[i].0 != m[j].0 by {
        if i != q && j != q {
            assert(m[i] == m0[i] && m[j] == m0[j]);
        }
    }
}

proof fn lemma_step_kept(pre: Seq<(ValueV, ValueV)>, m0: Seq<(ValueV, ValueV)>, m: Seq<(ValueV, ValueV)>, k: ValueV, v: ValueV, q: int)
    requires
        keys_kept(pre, m0),
        entry_placed(m0, m, k, v, q),
    ensures
        keys_kept(pre.push((k, v)), m),
{
    reveal(keys_kept);
    let ps = pre.push((k, v));
    assert forall|j: int| 0 <= j < ps.len() implies exists|i: int|
        0 <= i < m.len() && m[i].0 == #[trigger] ps[j].0 by {
        if j < pre.len() {
            assert(pre[j] == ps[j]);
            let i = choose|i: int| 0 <= i < m0.len() && m0[i].0 == #[trigger] pre[j].0;
            if i == q {
                assert(m[q].0 == ps[j].0);
            } else {
                assert(m[i].0 == ps[j].0);
            }
        } else {
            assert(m[q].0 == ps[j].0);
        }
    }
}

proof fn lemma_step_wins(pre: Seq<(ValueV, ValueV)>, m0: Seq<(ValueV, ValueV)>, m: Seq<(ValueV, ValueV)>, k: ValueV, v: ValueV, q: int)
    requires
        last_wins(pre, m0),
        entry_placed(m0, m, k, v, q),
    ensures
        last_wins(pre.push((k, v)), m),
{
    reveal(last_wins);
    let ps = pre.push((k, v));
    assert forall|i: int| 0 <= i < m.len() implies exists|j: int|
        0 <= j < ps.len() && ps[j] == #[trigger] m[i] && forall|l: int|
            j < l < ps.len() ==> ps[l].0 != m[i].0 by {
        if i == q {
            assert(ps[pre.len() as int] == m[i]);
        } else {
            let j = choose|j: int|
                0 <= j < pre.len() && pre[j] == #[trigger] m0[i] && forall|l: int|
                    j < l < pre.len() ==> pre[l].0 != m0[i].0;
            assert(ps[j] == m[i]);
            assert forall|l: int| j < l < ps.len() implies ps[l].0 != m[i].0 by {
                if l < pre.len() {
                    assert(pre[l] == ps[l]);
                }
            }
        }
    }
}

/// A map built from a sequence of pairs holds exactly one entry per key
/// that occurs among them, and each entry is the last pair with that key.
pub proof fn lemma_map_from(ps: Seq<(ValueV, ValueV)>)
    ensures
        keys_unique(map_from(ps)),
        keys_kept(ps, map_from(ps)),
        last_wins(ps, map_from(ps)),
    decreases ps.len(),
{
    if ps.len() == 0 {
        reveal(keys_unique);
        reveal(keys_kept);
        reveal(last_wins);
    } else {
        let pre = ps.drop_last();
        lemma_map_from(pre);
        let (k, v) = ps.last();
        let m0 = map_from(pre);
        let q = lemma_entry_placed(m0, k, v);
        lemma_step_unique(m0, with_entry(m0, k, v), k, v, q);
        lemma_step_kept(pre, m0, with_entry(m0, k, v), k, v, q);
        lemma_step_wins(pre, m0, with_entry(m0, k, v), k, v, q);
        assert(pre.push((k, v)) =~= ps);
    }
}

} // verus!
