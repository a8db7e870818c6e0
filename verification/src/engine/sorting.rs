//! Stable sorting of keyed entries: equal keys keep their order.
use vstd::prelude::*;

verus! {

/// `x` placed into `s` right after the last entry, counted from the end, whose key is at most
/// `x`'s; first when every key is larger.
pub open spec fn insert_by_key<T>(s: Seq<(i64, T)>, x: (i64, T)) -> Seq<(i64, T)>
    decreases s.len(),
{
    if s.len() == 0 {
        seq![x]
    } else if s.last().0 <= x.0 {
        s.push(x)
    } else {
        insert_by_key(s.drop_last(), x).push(s.last())
    }
}

/// The entries of `s` by ascending key, each placed after the entries before it with keys at
/// most its own: a stable sort.
pub open spec fn sort_by_key<T>(s: Seq<(i64, T)>) -> Seq<(i64, T)>
    decreases s.len(),
{
    if s.len() == 0 {
        s
    } else {
        insert_by_key(sort_by_key(s.drop_last()), s.last())
    }
}

proof fn lemma_insert_split<T>(s: Seq<(i64, T)>, x: (i64, T), j: int)
    requires
        0 <= j <= s.len(),
        forall|k: int| j <= k < s.len() ==> (#[trigger] s[k]).0 > x.0,
    ensures
        insert_by_key(s, x) == insert_by_key(s.take(j), x) + s.skip(j),
    decreases s.len() - j,
{
    if j == s.len() {
        assert(s.take(j) =~= s);
        assert(s.skip(j) =~= Seq::<(i64, T)>::empty());
        assert(insert_by_key(s, x) + Seq::<(i64, T)>::empty() =~= insert_by_key(s, x));
    } else {
        let t = s.drop_last();
        assert(s.last().0 > x.0);
        assert forall|k: int| j <= k < t.len() implies (#[trigger] t[k]).0 > x.0 by {
            assert(t[k] == s[k]);
        }
        lemma_insert_split(t, x, j);
        assert(t.take(j) =~= s.take(j));
        assert(t.skip(j).push(s.last()) =~= s.skip(j));
        assert((insert_by_key(t.take(j), x) + t.skip(j)).push(s.last()) =~= insert_by_key(t.take(j), x) + t.skip(j).push(s.last()));
    }
}

/// Inserts `x` into `v` as `insert_by_key` says.
fn insert_entry<T: Copy>(v: &mut Vec<(i64, T)>, x: (i64, T))
    ensures
        final(v)@ == insert_by_key(old(v)@, x),
{
    let mut j = v.len();
    while j > 0 && v[j - 1].0 > x.0
        invariant
            j <= v@.len(),
            v@ == old(v)@,
            forall|k: int| j <= k < v@.len() ==> (#[trigger] v@[k]).0 > x.0,
        decreases j,
    {
        j -= 1;
    }
    proof {
        lemma_insert_split(v@, x, j as int);
        if j > 0 {
            assert(v@.take(j as int).last() == v@[j - 1]);
            assert(v@.take(j as int).last().0 <= x.0);
        } else {
            assert(v@.take(0) =~= Seq::<(i64, T)>::empty());
        }
        assert(insert_by_key(v@.take(j as int), x) + v@.skip(j as int) =~= v@.insert(j as int, x));
    }
    v.insert(j, x);
}

/// The entries of `v` sorted stably by key.
pub fn sort_entries<T: Copy>(v: &Vec<(i64, T)>) -> (r: Vec<(i64, T)>)
    ensures
        r@ == sort_by_key(v@),
{
    let mut out: Vec<(i64, T)> = Vec::new();
    let mut i: usize = 0;
    assert(v@.take(0) =~= Seq::<(i64, T)>::empty());
    while i < v.len()
        invariant
            i <= v@.len(),
            out@ == sort_by_key(v@.take(i as int)),
        decreases v@.len() - i,
    {
        assert(v@.take(i + 1).drop_last() =~= v@.take(i as int));
        insert_entry(&mut out, v[i]);
        i += 1;
    }
    assert(v@.take(v@.len() as int) =~= v@);
    out
}

/// What holds of every entry of `s` holds of every entry of `insert_by_key(s, x)` when it
/// holds of `x`, and the insertion adds one entry.
pub proof fn lemma_insert_keeps<T>(s: Seq<(i64, T)>, x: (i64, T), p: spec_fn((i64, T)) -> bool)
    requires
        forall|k: int| 0 <= k < s.len() ==> p(#[trigger] s[k]),
        p(x),
    ensures
        insert_by_key(s, x).len() == s.len() + 1,
        forall|k: int| 0 <= k < insert_by_key(s, x).len() ==> p(#[trigger] insert_by_key(s, x)[k]),
    decreases s.len(),
{
    if s.len() > 0 && s.last().0 > x.0 {
        let t = s.drop_last();
        assert forall|k: int| 0 <= k < t.len() implies p(#[trigger] t[k]) by {
            assert(t[k] == s[k]);
        }
        lemma_insert_keeps(t, x, p);
        assert(p(s[s.len() - 1]));
    }
}

/// Sorting keeps the number of entries and what holds of all of them.
pub proof fn lemma_sort_keeps<T>(s: Seq<(i64, T)>, p: spec_fn((i64, T)) -> bool)
    requires
        forall|k: int| 0 <= k < s.len() ==> p(#[trigger] s[k]),
    ensures
        sort_by_key(s).len() == s.len(),
        forall|k: int| 0 <= k < sort_by_key(s).len() ==> p(#[trigger] sort_by_key(s)[k]),
    decreases s.len(),
{
    if s.len() > 0 {
        let t = s.drop_last();
        assert forall|k: int| 0 <= k < t.len() implies p(#[trigger] t[k]) by {
            assert(t[k] == s[k]);
        }
        lemma_sort_keeps(t, p);
        assert(p(s[s.len() - 1]));
        lemma_insert_keeps(sort_by_key(t), s.last(), p);
    }
}

/// Whether the keys of `s` never fall.
pub open spec fn keys_ascending<T>(s: Seq<(i64, T)>) -> bool {
    forall|i: int, j: int| 0 <= i <= j < s.len() ==> (#[trigger] s[i]).0 <= (#[trigger] s[j]).0
}

/// Inserting into entries whose keys never fall keeps them so, and adds just the new entry.
proof fn lemma_insert_sorted<T>(s: Seq<(i64, T)>, x: (i64, T))
    requires
        keys_ascending(s),
    ensures
        keys_ascending(insert_by_key(s, x)),
        insert_by_key(s, x).to_multiset() =~= s.to_multiset().insert(x),
    decreases s.len(),
{
    broadcast use vstd::seq_lib::group_to_multiset_ensures;

    if s.len() == 0 {
        assert(seq![x] =~= s.push(x));
    } else if s.last().0 <= x.0 {
        let r = s.push(x);
        assert forall|i: int, j: int| 0 <= i <= j < r.len() implies (#[trigger] r[i]).0 <= (#[trigger] r[j]).0 by {
            if j == s.len() && i < j {
                assert(s[i].0 <= s[s.len() - 1].0);
            }
        }
    } else {
        let t = s.drop_last();
        let top = s.last();
        assert forall|i: int, j: int| 0 <= i <= j < t.len() implies (#[trigger] t[i]).0 <= (#[trigger] t[j]).0 by {
            assert(t[i] == s[i] && t[j] == s[j]);
        }
        lemma_insert_sorted(t, x);
        let p = |e: (i64, T)| e.0 <= top.0;
        assert forall|k: int| 0 <= k < t.len() implies p(#[trigger] t[k]) by {
            assert(t[k] == s[k]);
        }
        lemma_insert_keeps(t, x, p);
        let u = insert_by_key(t, x);
        let r = u.push(top);
        assert forall|i: int, j: int| 0 <= i <= j < r.len() implies (#[trigger] r[i]).0 <= (#[trigger] r[j]).0 by {
            if j == u.len() {
                assert(p(u[i]) || i == j);
            } else {
                assert(u[i].0 <= u[j].0);
            }
        }
        assert(s =~= t.push(top));
    }
}

/// Sorting gives the same entries, as many times each, with keys that never fall.
pub proof fn lemma_sort_sorted<T>(s: Seq<(i64, T)>)
    ensures
        keys_ascending(sort_by_key(s)),
        sort_by_key(s).to_multiset() =~= s.to_multiset(),
    decreases s.len(),
{
    broadcast use vstd::seq_lib::group_to_multiset_ensures;

    if s.len() > 0 {
        let t = s.drop_last();
        lemma_sort_sorted(t);
        lemma_insert_sorted(sort_by_key(t), s.last());
        assert(s =~= t.push(s.last()));
    }
}

/// Inserting adds the image of the new entry to the images of the entries, whatever the map.
proof fn lemma_insert_map<T, U>(s: Seq<(i64, T)>, x: (i64, T), f: spec_fn((i64, T)) -> U)
    ensures
        insert_by_key(s, x).map_values(f).to_multiset() =~= s.map_values(f).to_multiset().insert(f(x)),
    decreases s.len(),
{
    broadcast use vstd::seq_lib::group_to_multiset_ensures;

    if s.len() == 0 {
        assert(seq![x].map_values(f) =~= s.map_values(f).push(f(x)));
    } else if s.last().0 <= x.0 {
        assert(s.push(x).map_values(f) =~= s.map_values(f).push(f(x)));
    } else {
        let t = s.drop_last();
        lemma_insert_map(t, x, f);
        assert(insert_by_key(t, x).push(s.last()).map_values(f) =~= insert_by_key(t, x).map_values(f).push(f(s.last())));
        assert(s.map_values(f) =~= t.map_values(f).push(f(s.last())));
    }
}

/// Sorting keeps the images of the entries, as many times each, whatever the map.
pub proof fn lemma_sort_map<T, U>(s: Seq<(i64, T)>, f: spec_fn((i64, T)) -> U)
    ensures
        sort_by_key(s).map_values(f).to_multiset() =~= s.map_values(f).to_multiset(),
    decreases s.len(),
{
    broadcast use vstd::seq_lib::group_to_multiset_ensures;

    if s.len() > 0 {
        let t = s.drop_last();
        lemma_sort_map(t, f);
        lemma_insert_map(sort_by_key(t), s.last(), f);
        assert(s.map_values(f) =~= t.map_values(f).push(f(s.last())));
    } else {
        assert(sort_by_key(s).map_values(f) =~= s.map_values(f));
    }
}

} // verus!
