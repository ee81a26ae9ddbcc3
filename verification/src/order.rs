//! Entries sorted by their keys.
use crate::text::{
    is_before, lemma_before_irreflexive, lemma_before_total, lemma_before_transitive, text_before,
};
use vstd::prelude::*;

verus! {

/// No two entries have the same key.
pub open spec fn distinct_keys<V>(s: Seq<(Seq<char>, V)>) -> bool {
    forall|i: int, j: int| 0 <= i < j < s.len() ==> (#[trigger] s[i]).0 != (#[trigger] s[j]).0
}

/// Every entry's key stands before the keys of the entries behind it.
pub open spec fn ascending<V>(s: Seq<(Seq<char>, V)>) -> bool {
    forall|i: int, j: int|
        0 <= i < j < s.len() ==> text_before((#[trigger] s[i]).0, (#[trigger] s[j]).0)
}

/// `e` put into `s` in front of the entries at the end whose keys it stands before.
pub open spec fn insert_entry<V>(s: Seq<(Seq<char>, V)>, e: (Seq<char>, V)) -> Seq<(Seq<char>, V)>
    decreases s.len(),
{
    if s.len() > 0 && text_before(e.0, s.last().0) {
        insert_entry(s.drop_last(), e).push(s.last())
    } else {
        s.push(e)
    }
}

/// The entries sorted by key; entries of one key keep their order.
pub open spec fn sort_entries<V>(s: Seq<(Seq<char>, V)>) -> Seq<(Seq<char>, V)>
    decreases s.len(),
{
    if s.len() == 0 {
        s
    } else {
        insert_entry(sort_entries(s.drop_last()), s.last())
    }
}

/// The entries of a list with their keys as texts.
pub open spec fn keyed<T>(s: Seq<(String, T)>) -> Seq<(Seq<char>, T)> {
    Seq::new(s.len(), |i: int| (s[i].0@, s[i].1))
}

/// The entries with `f` applied to what stands under the keys.
pub open spec fn map_entries<V, W>(s: Seq<(Seq<char>, V)>, f: spec_fn(V) -> W) -> Seq<
    (Seq<char>, W),
> {
    Seq::new(s.len(), |i: int| (s[i].0, f(s[i].1)))
}

/// Where [`insert_entry`] puts the new entry.
proof fn lemma_insert_at<V>(s: Seq<(Seq<char>, V)>, e: (Seq<char>, V), p: int)
    requires
        0 <= p <= s.len(),
        p > 0 ==> !text_before(e.0, s[p - 1].0),
        forall|k: int| p <= k < s.len() ==> text_before(e.0, (#[trigger] s[k]).0),
    ensures
        insert_entry(s, e) == s.insert(p, e),
    decreases s.len(),
{
    if p == s.len() {
        assert(s.insert(p, e) =~= s.push(e));
    } else {
        lemma_insert_at(s.drop_last(), e, p);
        assert(s.drop_last().insert(p, e).push(s.last()) =~= s.insert(p, e));
    }
}

/// Inserting keeps the entries and adds the new one.
proof fn lemma_insert_entry<V>(s: Seq<(Seq<char>, V)>, e: (Seq<char>, V))
    ensures
        insert_entry(s, e).len() == s.len() + 1,
        forall|x: (Seq<char>, V)|
            #[trigger] insert_entry(s, e).contains(x) <==> (s.contains(x) || x == e),
        ascending(s) && (forall|k: int| 0 <= k < s.len() ==> (#[trigger] s[k]).0 != e.0)
            ==> ascending(insert_entry(s, e)),
    decreases s.len(),
{
    let r = insert_entry(s, e);
    if s.len() > 0 && text_before(e.0, s.last().0) {
        let rest = s.drop_last();
        let inner = insert_entry(rest, e);
        lemma_insert_entry(rest, e);
        assert forall|x: (Seq<char>, V)| #[trigger]
            r.contains(x) <==> (s.contains(x) || x == e) by {
            if r.contains(x) {
                let k = r.index_of(x);
                if k < inner.len() {
                    assert(inner[k] == x);
                    assert(inner.contains(x));
                    if rest.contains(x) {
                        assert(s[rest.index_of(x)] == x);
                    }
                } else {
                    assert(s[s.len() - 1] == x);
                }
            }
            if s.contains(x) {
                let k = s.index_of(x);
                if k < rest.len() {
                    assert(rest[k] == x);
                    assert(inner.contains(x));
                    assert(r[inner.index_of(x)] == x);
                } else {
                    assert(r[inner.len() as int] == x);
                }
            }
            if x == e {
                assert(inner.contains(e));
                assert(r[inner.index_of(e)] == e);
            }
        }
        if ascending(s) && (forall|k: int| 0 <= k < s.len() ==> (#[trigger] s[k]).0 != e.0) {
            assert(ascending(rest));
            assert forall|k: int| 0 <= k < rest.len() implies (#[trigger] rest[k]).0 != e.0 by {
                assert(s[k].0 != e.0);
            }
            assert(ascending(inner));
            assert forall|i: int, j: int| 0 <= i < j < r.len() implies text_before(
                (#[trigger] r[i]).0,
                (#[trigger] r[j]).0,
            ) by {
                if j < inner.len() {
                    assert(inner[i] == r[i] && inner[j] == r[j]);
                } else {
                    assert(inner.contains(inner[i]));
                    if inner[i] != e {
                        let k = rest.index_of(inner[i]);
                        assert(s[k] == inner[i]);
                    }
                }
            }
        }
    } else {
        assert forall|x: (Seq<char>, V)| #[trigger]
            r.contains(x) <==> (s.contains(x) || x == e) by {
            if r.contains(x) {
                let k = r.index_of(x);
                if k < s.len() {
                    assert(s[k] == x);
                }
            }
            if s.contains(x) {
                assert(r[s.index_of(x)] == x);
            }
            if x == e {
                assert(r[s.len() as int] == e);
            }
        }
        if ascending(s) && (forall|k: int| 0 <= k < s.len() ==> (#[trigger] s[k]).0 != e.0) {
            assert forall|i: int, j: int| 0 <= i < j < r.len() implies text_before(
                (#[trigger] r[i]).0,
                (#[trigger] r[j]).0,
            ) by {
                if j < s.len() {
                    assert(s[i] == r[i] && s[j] == r[j]);
                } else {
                    let last = s.last().0;
                    lemma_before_total(last, e.0);
                    assert(s[s.len() - 1].0 != e.0);
                    if i < s.len() - 1 {
                        assert(text_before(s[i].0, s[s.len() - 1].0));
                        lemma_before_transitive(s[i].0, last, e.0);
                    }
                }
            }
        }
    }
}

/// Sorting keeps exactly the entries, and puts entries of different keys in ascending order.
pub proof fn lemma_sort_entries<V>(s: Seq<(Seq<char>, V)>)
    ensures
        sort_entries(s).len() == s.len(),
        forall|x: (Seq<char>, V)| #[trigger] sort_entries(s).contains(x) <==> s.contains(x),
        distinct_keys(s) ==> ascending(sort_entries(s)),
    decreases s.len(),
{
    if s.len() > 0 {
        let rest = s.drop_last();
        let sorted = sort_entries(rest);
        lemma_sort_entries(rest);
        lemma_insert_entry(sorted, s.last());
        assert forall|x: (Seq<char>, V)| #[trigger] sort_entries(s).contains(x) <==> s.contains(
            x,
        ) by {
            if s.contains(x) {
                let k = s.index_of(x);
                if k < rest.len() {
                    assert(rest[k] == x);
                }
            }
            if rest.contains(x) {
                assert(s[rest.index_of(x)] == x);
            }
            if x == s.last() {
                assert(s[s.len() - 1] == x);
            }
            assert(insert_entry(sorted, s.last()).contains(x) <==> (sorted.contains(x) || x
                == s.last()));
            assert(sorted.contains(x) <==> rest.contains(x));
        }
        if distinct_keys(s) {
            assert(distinct_keys(rest)) by {
                assert forall|i: int, j: int| 0 <= i < j < rest.len() implies (
                #[trigger] rest[i]).0 != (#[trigger] rest[j]).0 by {
                    assert(s[i].0 != s[j].0);
                }
            }
            assert forall|k: int| 0 <= k < sorted.len() implies (#[trigger] sorted[k]).0
                != s.last().0 by {
                assert(sorted.contains(sorted[k]));
                let i = rest.index_of(sorted[k]);
                assert(s[i].0 != s[s.len() - 1].0);
            }
        }
    } else {
        assert(sort_entries(s) =~= s);
    }
}

/// Two ascending lists of the same entries are the same list.
pub proof fn lemma_ascending_unique<V>(a: Seq<(Seq<char>, V)>, b: Seq<(Seq<char>, V)>)
    requires
        ascending(a),
        ascending(b),
        a.len() == b.len(),
        forall|x: (Seq<char>, V)| #[trigger] a.contains(x) ==> b.contains(x),
        forall|x: (Seq<char>, V)| #[trigger] b.contains(x) ==> a.contains(x),
    ensures
        a == b,
    decreases a.len(),
{
    if a.len() == 0 {
        assert(a =~= b);
    } else {
        let x = a.last();
        let y = b.last();
        assert(a[a.len() - 1] == x && b[b.len() - 1] == y);
        assert(a.contains(x) && b.contains(y));
        let i = b.index_of(x);
        let j = a.index_of(y);
        if i < b.len() - 1 && j < a.len() - 1 {
            assert(text_before(b[i].0, b[b.len() - 1].0));
            assert(text_before(a[j].0, a[a.len() - 1].0));
            lemma_before_transitive(x.0, y.0, x.0);
            lemma_before_irreflexive(x.0);
        }
        assert(x == y);
        let a1 = a.drop_last();
        let b1 = b.drop_last();
        assert forall|z: (Seq<char>, V)| #[trigger] a1.contains(z) implies b1.contains(z) by {
            let k = a1.index_of(z);
            assert(a[k] == z);
            assert(a.contains(z));
            let m = b.index_of(z);
            if m == b.len() - 1 {
                assert(text_before(a[k].0, a[a.len() - 1].0));
                lemma_before_irreflexive(z.0);
            }
            assert(b1[m] == z);
        }
        assert forall|z: (Seq<char>, V)| #[trigger] b1.contains(z) implies a1.contains(z) by {
            let k = b1.index_of(z);
            assert(b[k] == z);
            assert(b.contains(z));
            let m = a.index_of(z);
            if m == a.len() - 1 {
                assert(text_before(b[k].0, b[b.len() - 1].0));
                lemma_before_irreflexive(z.0);
            }
            assert(a1[m] == z);
        }
        lemma_ascending_unique(a1, b1);
        assert(a =~= a1.push(x));
        assert(b =~= b1.push(y));
    }
}

/// Sorting looks at the keys alone.
pub proof fn lemma_sort_map<V, W>(s: Seq<(Seq<char>, V)>, f: spec_fn(V) -> W)
    ensures
        sort_entries(map_entries(s, f)) == map_entries(sort_entries(s), f),
    decreases s.len(),
{
    let t = map_entries(s, f);
    if s.len() == 0 {
        assert(t =~= map_entries(sort_entries(s), f));
    } else {
        assert(t.drop_last() =~= map_entries(s.drop_last(), f));
        lemma_sort_map(s.drop_last(), f);
        lemma_insert_map(sort_entries(s.drop_last()), s.last(), f);
    }
}

proof fn lemma_insert_map<V, W>(s: Seq<(Seq<char>, V)>, e: (Seq<char>, V), f: spec_fn(V) -> W)
    ensures
        insert_entry(map_entries(s, f), (e.0, f(e.1))) == map_entries(insert_entry(s, e), f),
    decreases s.len(),
{
    let t = map_entries(s, f);
    if s.len() > 0 && text_before(e.0, s.last().0) {
        lemma_insert_map(s.drop_last(), e, f);
        assert(t.drop_last() =~= map_entries(s.drop_last(), f));
        assert(map_entries(insert_entry(s, e), f) =~= map_entries(
            insert_entry(s.drop_last(), e),
            f,
        ).push((s.last().0, f(s.last().1))));
    } else {
        assert(map_entries(s.push(e), f) =~= t.push((e.0, f(e.1))));
    }
}

/// Sorts entries by key; entries of one key keep their order.
pub fn sort_by_key<T>(list: Vec<(String, T)>) -> (r: Vec<(String, T)>)
    ensures
        keyed(r@) == sort_entries(keyed(list@)),
{
    let mut out: Vec<(String, T)> = Vec::new();
    assert(keyed(list@).take(0) =~= Seq::empty());
    assert(keyed(out@) =~= sort_entries(keyed(list@).take(0)));
    for entry in it: list
        invariant
            it.seq() == list@,
            keyed(out@) == sort_entries(keyed(list@).take(it.index())),
    {
        let ghost sorted = keyed(out@);
        let ghost e = (entry.0@, entry.1);
        let mut p = out.len();
        while p > 0 && is_before(entry.0.as_str(), out[p - 1].0.as_str())
            invariant
                p <= out@.len(),
                sorted == keyed(out@),
                e.0 == entry.0@,
                forall|k: int| p <= k < sorted.len() ==> text_before(e.0, (#[trigger] sorted[k]).0),
            decreases p,
        {
            assert(sorted[p - 1].0 == out@[p - 1].0@);
            p = p - 1;
        }
        proof {
            if p > 0 {
                assert(sorted[p - 1].0 == out@[p - 1].0@);
            }
            lemma_insert_at(sorted, e, p as int);
            let upto = keyed(list@).take(it.index() + 1);
            assert(upto.drop_last() =~= keyed(list@).take(it.index()));
            assert(upto.last() == e);
        }
        out.insert(p, entry);
        assert(keyed(out@) =~= sorted.insert(p as int, e));
    }
    assert(keyed(list@).take(list@.len() as int) =~= keyed(list@));
    out
}

} // verus!
