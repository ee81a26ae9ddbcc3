//! Canonical JSON text.
//!
//! The canonical text of a value has the members of every object sorted by key, so that values
//! which differ in nothing but the order of their members have the same text.
use crate::codec::{close_value, copy_number, value_to_string, value_to_vec, Node};
use crate::json::{
    compact_items, compact_values, entry_views, field, item_views, lemma_position, members_text,
    position, quoted, sorted_items, sorted_values, Json, JsonView,
};
use crate::order::{
    ascending, distinct_keys, keyed, lemma_ascending_unique, lemma_sort_entries, lemma_sort_map,
    map_entries, sort_by_key, sort_entries,
};
use crate::text::{join, join_texts, lemma_before_irreflexive, text_before, texts};
use vstd::prelude::*;
use vstd::utf8::encode_utf8;

verus! {

/// The canonical text of a value: no white space, the members of objects sorted by key.
pub open spec fn canonical_text(v: JsonView) -> Seq<char>
    decreases v,
{
    match v {
        JsonView::Object(entries) => "{"@ + members_text(sort_entries(canonical_values(entries)))
            + "}"@,
        JsonView::Array(items) => "["@ + join_texts(canonical_items(items), ","@) + "]"@,
        other => other.compact(),
    }
}

/// The canonical texts of the values of a list.
pub open spec fn canonical_items(items: Seq<JsonView>) -> Seq<Seq<char>>
    decreases items,
{
    Seq::new(
        items.len(),
        |i: int|
            if 0 <= i < items.len() {
                canonical_text(items[i])
            } else {
                Seq::empty()
            },
    )
}

/// The entries of an object, the value of each as its canonical text.
pub open spec fn canonical_values(entries: Seq<(Seq<char>, JsonView)>) -> Seq<
    (Seq<char>, Seq<char>),
>
    decreases entries,
{
    Seq::new(
        entries.len(),
        |i: int|
            if 0 <= i < entries.len() {
                (entries[i].0, canonical_text(entries[i].1))
            } else {
                (Seq::empty(), Seq::empty())
            },
    )
}

/// The JSON text of a value that is no list and no object.
fn scalar_text(node: Node) -> (r: String)
    requires
        !(node is Array),
        !(node is Object),
    ensures
        r@ == node.model().compact(),
{
    match value_to_string(&close_value(node)) {
        Ok(text) => text,
        Err(_) => String::new(),
    }
}

/// The canonical text of a value.
pub fn canonical_json(v: &Json) -> (r: String)
    ensures
        r@ == canonical_text(v@),
    decreases v,
{
    match v {
        Json::Object(entries) => {
            let mut pairs: Vec<(String, String)> = Vec::new();
            for i in 0..entries.len()
                invariant
                    *v == Json::Object(*entries),
                    pairs@.len() == i,
                    forall|k: int|
                        0 <= k < i ==> (#[trigger] pairs@[k]).0@ == entries@[k].0@ && pairs@[k].1@
                            == canonical_text(entries@[k].1@),
            {
                assert(decreases_to!(*v => v->Object_0@[i as int]));
                assert(decreases_to!(entries@[i as int] => entries@[i as int].1));
                let text = canonical_json(&entries[i].1);
                pairs.push((entries[i].0.clone(), text));
            }
            let ghost as_text = |s: String| s@;
            proof {
                lemma_sort_map(keyed(pairs@), as_text);
                assert(map_entries(keyed(pairs@), as_text) =~= canonical_values(
                    entry_views(entries@),
                ));
            }
            let sorted = sort_by_key(pairs);
            let ghost members = map_entries(keyed(sorted@), as_text);
            assert(members == sort_entries(canonical_values(entry_views(entries@))));
            let mut inner: Vec<String> = Vec::new();
            for i in 0..sorted.len()
                invariant
                    inner@.len() == i,
                    members.len() == sorted@.len(),
                    forall|k: int|
                        0 <= k < sorted@.len() ==> #[trigger] members[k] == (
                            sorted@[k].0@,
                            sorted@[k].1@,
                        ),
                    forall|k: int|
                        0 <= k < i ==> (#[trigger] inner@[k])@ == quoted(members[k].0) + ":"@
                            + members[k].1,
            {
                let mut member = scalar_text(Node::Text(sorted[i].0.clone()));
                member.append(":");
                member.append(sorted[i].1.as_str());
                assert(members[i as int] == (sorted@[i as int].0@, sorted@[i as int].1@));
                inner.push(member);
            }
            assert(texts(inner@) =~= Seq::new(
                members.len(),
                |i: int| quoted(members[i].0) + ":"@ + members[i].1,
            ));
            let mut out = "{".to_owned();
            out.append(join(&inner, ",").as_str());
            out.append("}");
            out
        },
        Json::Array(items) => {
            let mut inner: Vec<String> = Vec::new();
            for i in 0..items.len()
                invariant
                    *v == Json::Array(*items),
                    inner@.len() == i,
                    forall|k: int|
                        0 <= k < i ==> (#[trigger] inner@[k])@ == canonical_text(items@[k]@),
            {
                assert(decreases_to!(*v => v->Array_0@[i as int]));
                inner.push(canonical_json(&items[i]));
            }
            assert(texts(inner@) =~= canonical_items(item_views(items@)));
            let mut out = "[".to_owned();
            out.append(join(&inner, ",").as_str());
            out.append("]");
            out
        },
        Json::Null => scalar_text(Node::Null),
        Json::Bool(b) => scalar_text(Node::Bool(*b)),
        Json::Number(n) => scalar_text(Node::Number(copy_number(n))),
        Json::Text(s) => scalar_text(Node::Text(s.clone())),
    }
}

/// The canonical text of a value, in UTF-8.
pub fn canonical_bytes(v: Json) -> (r: Vec<u8>)
    requires
        v@.wf(),
    ensures
        r@ == encode_utf8(canonical_text(v@)),
{
    proof {
        law_canonical_is_sorted_compact(v@);
    }
    match value_to_vec(&v.into_value()) {
        Ok(bytes) => bytes,
        // Writing a value to memory never fails.
        Err(_) => Vec::new(),
    }
}

/// Two values hold the same content: they differ at most in the order in which their objects
/// list their members.
pub open spec fn same_content(a: JsonView, b: JsonView) -> bool
    decreases a,
{
    match (a, b) {
        (JsonView::Array(x), JsonView::Array(y)) => {
            &&& x.len() == y.len()
            &&& forall|i: int| 0 <= i < x.len() ==> same_content(#[trigger] x[i], y[i])
        },
        (JsonView::Object(x), JsonView::Object(y)) => {
            &&& x.len() == y.len()
            &&& forall|i: int|
                0 <= i < x.len() ==> match field(y, (#[trigger] x[i]).0) {
                    Some(w) => same_content(x[i].1, w),
                    None => false,
                }
        },
        _ => a == b,
    }
}

/// The canonical text of a value is the plain text of the value with the members of its objects
/// sorted.
pub proof fn law_canonical_is_sorted_compact(v: JsonView)
    ensures
        canonical_text(v) == v.sorted().compact(),
    decreases v,
{
    match v {
        JsonView::Object(entries) => {
            let write = |x: JsonView| x.compact();
            assert forall|i: int| 0 <= i < entries.len() implies canonical_text(
                (#[trigger] entries[i]).1,
            ) == entries[i].1.sorted().compact() by {
                law_canonical_is_sorted_compact(entries[i].1);
            }
            assert(canonical_values(entries) =~= map_entries(sorted_values(entries), write));
            lemma_sort_map(sorted_values(entries), write);
            let sorted = sort_entries(sorted_values(entries));
            assert(compact_values(sorted) =~= map_entries(sorted, write));
        },
        JsonView::Array(items) => {
            assert forall|i: int| 0 <= i < items.len() implies canonical_text(#[trigger] items[i])
                == items[i].sorted().compact() by {
                law_canonical_is_sorted_compact(items[i]);
            }
            assert(canonical_items(items) =~= compact_items(sorted_items(items)));
        },
        _ => {},
    }
}

/// The keys of every object in the tree ascend in dictionary order.
pub open spec fn keys_ascend(v: JsonView) -> bool
    decreases v,
{
    match v {
        JsonView::Array(items) => forall|i: int|
            0 <= i < items.len() ==> keys_ascend(#[trigger] items[i]),
        JsonView::Object(entries) => {
            &&& ascending(entries)
            &&& forall|i: int| 0 <= i < entries.len() ==> keys_ascend((#[trigger] entries[i]).1)
        },
        _ => true,
    }
}

/// The canonical text of a value is the plain text of one in which the keys of every object, at
/// every depth, ascend.
pub proof fn law_canonical_keys_ascend(v: JsonView)
    requires
        v.wf(),
    ensures
        canonical_text(v) == v.sorted().compact(),
        keys_ascend(v.sorted()),
    decreases v,
{
    law_canonical_is_sorted_compact(v);
    match v {
        JsonView::Array(items) => {
            let after = sorted_items(items);
            assert forall|i: int| 0 <= i < after.len() implies keys_ascend(#[trigger] after[i]) by {
                assert(items[i].wf());
                law_canonical_keys_ascend(items[i]);
            }
        },
        JsonView::Object(entries) => {
            let values = sorted_values(entries);
            let after = sort_entries(values);
            lemma_sort_entries(values);
            assert forall|i: int, j: int| 0 <= i < j < values.len() implies (
            #[trigger] values[i]).0 != (#[trigger] values[j]).0 by {
                assert(entries[i].0 != entries[j].0);
            }
            assert forall|i: int| 0 <= i < after.len() implies keys_ascend(
                (#[trigger] after[i]).1,
            ) by {
                assert(after.contains(after[i]));
                let k = values.index_of(after[i]);
                assert(entries[k].1.wf());
                law_canonical_keys_ascend(entries[k].1);
                assert(values[k].1 == entries[k].1.sorted());
            }
        },
        _ => {},
    }
}

/// Sorting the members of objects does not depend on the order in which they were listed.
pub proof fn law_sorted_ignores_order(a: JsonView, b: JsonView)
    requires
        a.wf(),
        b.wf(),
        same_content(a, b),
    ensures
        a.sorted() == b.sorted(),
    decreases a,
{
    match (a, b) {
        (JsonView::Array(x), JsonView::Array(y)) => {
            assert forall|i: int| 0 <= i < x.len() implies (#[trigger] x[i]).sorted()
                == y[i].sorted() by {
                assert(y[i].wf());
                law_sorted_ignores_order(x[i], y[i]);
            }
            assert(sorted_items(x) =~= sorted_items(y));
        },
        (JsonView::Object(x), JsonView::Object(y)) => {
            let p = sorted_values(x);
            let q = sorted_values(y);
            assert forall|i: int| 0 <= i < x.len() implies position(y, (#[trigger] x[i]).0) is Some
                && 0 <= position(y, x[i].0)->0 < y.len() && q[position(y, x[i].0)->0] == p[i] by {
                lemma_position(y, x[i].0);
                let k = position(y, x[i].0)->0;
                assert(same_content(x[i].1, y[k].1));
                assert(x[i].1.wf());
                assert(y[k].1.wf());
                law_sorted_ignores_order(x[i].1, y[k].1);
            }
            let at = |i: int| position(y, x[i].0)->0;
            assert forall|e: (Seq<char>, JsonView)| #[trigger] p.contains(e) implies q.contains(
                e,
            ) by {
                let i = p.index_of(e);
                assert(x[i].0 == p[i].0);
                assert(q[at(i)] == e);
            }
            assert forall|e: (Seq<char>, JsonView)| #[trigger] q.contains(e) implies p.contains(
                e,
            ) by {
                let k = q.index_of(e);
                lemma_onto(x, y, k);
                let i = choose|i: int| 0 <= i < x.len() && (#[trigger] x[i]).0 == y[k].0;
                assert(x[i].0 == y[k].0);
                lemma_position(y, x[i].0);
                let m = position(y, x[i].0)->0;
                if m != k {
                    assert(y[m].0 != y[k].0);
                }
                assert(p[i] == e);
            }
            assert forall|i: int, j: int| 0 <= i < j < p.len() implies (#[trigger] p[i]).0 != (
            #[trigger] p[j]).0 by {
                assert(x[i].0 != x[j].0);
            }
            assert forall|i: int, j: int| 0 <= i < j < q.len() implies (#[trigger] q[i]).0 != (
            #[trigger] q[j]).0 by {
                assert(y[i].0 != y[j].0);
            }
            lemma_sort_entries(p);
            lemma_sort_entries(q);
            lemma_ascending_unique(sort_entries(p), sort_entries(q));
        },
        _ => {},
    }
}

/// Where every key of one list is a key of another of the same length, every key of the other
/// is a key of the one.
pub proof fn lemma_onto<V, W>(x: Seq<(Seq<char>, V)>, y: Seq<(Seq<char>, W)>, k: int)
    requires
        x.len() == y.len(),
        distinct_keys(x),
        distinct_keys(y),
        forall|i: int| 0 <= i < x.len() ==> position(y, (#[trigger] x[i]).0) is Some,
        0 <= k < y.len(),
    ensures
        exists|i: int| 0 <= i < x.len() && (#[trigger] x[i]).0 == y[k].0,
{
    let keys = Seq::new(x.len(), |i: int| x[i].0);
    let others = Seq::new(y.len(), |i: int| y[i].0);
    keys.unique_seq_to_set();
    others.unique_seq_to_set();
    assert(keys.to_set().subset_of(others.to_set())) by {
        assert forall|t: Seq<char>| keys.to_set().contains(t) implies others.to_set().contains(
            t,
        ) by {
            let i = keys.index_of(t);
            assert(x[i].0 == t);
            lemma_position(y, t);
            let m = position(y, t)->0;
            assert(others[m] == t);
        }
    }
    vstd::set_lib::lemma_subset_equality(keys.to_set(), others.to_set());
    assert(others[k] == y[k].0);
    assert(others.to_set().contains(y[k].0));
    let i = keys.index_of(y[k].0);
    assert(x[i].0 == y[k].0);
}

/// Values of the same content have the same canonical text, whatever the order of their members.
pub proof fn law_canonical_ignores_order(a: JsonView, b: JsonView)
    requires
        a.wf(),
        b.wf(),
        same_content(a, b),
    ensures
        canonical_text(a) == canonical_text(b),
{
    law_canonical_is_sorted_compact(a);
    law_canonical_is_sorted_compact(b);
    law_sorted_ignores_order(a, b);
}

/// Sorting members keeps the content.
pub proof fn law_sorting_keeps_content(v: JsonView)
    requires
        v.wf(),
    ensures
        same_content(v, v.sorted()),
    decreases v,
{
    match v {
        JsonView::Array(items) => {
            let after = sorted_items(items);
            assert forall|i: int| 0 <= i < items.len() implies same_content(
                #[trigger] items[i],
                after[i],
            ) by {
                law_sorting_keeps_content(items[i]);
            }
        },
        JsonView::Object(entries) => {
            let values = sorted_values(entries);
            let after = sort_entries(values);
            assert(distinct_keys(values)) by {
                assert forall|i: int, j: int| 0 <= i < j < values.len() implies (
                #[trigger] values[i]).0 != (#[trigger] values[j]).0 by {
                    assert(entries[i].0 != entries[j].0);
                }
            }
            lemma_sort_entries(values);
            assert forall|i: int| 0 <= i < entries.len() implies match field(
                after,
                (#[trigger] entries[i]).0,
            ) {
                Some(w) => same_content(entries[i].1, w),
                None => false,
            } by {
                let e = values[i];
                assert(e == (entries[i].0, entries[i].1.sorted()));
                assert(values.contains(e));
                assert(after.contains(e));
                let k = after.index_of(e);
                lemma_position(after, e.0);
                if let Some(m) = position(after, e.0) {
                    lemma_before_irreflexive(e.0);
                    if m < k {
                        assert(text_before(after[m].0, after[k].0));
                    } else if k < m {
                        assert(text_before(after[k].0, after[m].0));
                    }
                }
                assert(entries[i].1.wf());
                law_sorting_keeps_content(entries[i].1);
            }
        },
        _ => {},
    }
}

} // verus!
