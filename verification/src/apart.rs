//! JSON text tells values apart: from the text of a value that holds no number but integers, the
//! value can be told, but for the order of members where the text is canonical.
use crate::canonical::{
    canonical_text, law_canonical_ignores_order, law_canonical_is_sorted_compact, same_content,
};
use crate::codec::NumberView;
use crate::json::{
    compact_items, compact_values, escaped, escaped_char, field, hex_digit, lemma_position,
    members_text, position, quoted, sorted_items, sorted_values, JsonView,
};
use crate::order::{lemma_sort_entries, sort_entries};
use crate::text::{decimal, join_texts, law_decimal_is_read_back, NumberError};
use vstd::prelude::*;

verus! {

/// Whether a number is an integer between the least `i64` and the greatest `u64`, written in
/// decimal.
pub open spec fn is_integer(n: NumberView) -> bool {
    match n.whole {
        Some(k) => n.text == decimal(k as nat),
        None => exists|k: nat|
            1 <= k <= 0x8000_0000_0000_0000 && n.text == seq!['-'] + #[trigger] decimal(k),
    }
}

/// Every number in the tree is an integer.
pub open spec fn holds_integers_only(v: JsonView) -> bool
    decreases v,
{
    match v {
        JsonView::Number(n) => is_integer(n),
        JsonView::Array(items) => forall|i: int|
            0 <= i < items.len() ==> holds_integers_only(#[trigger] items[i]),
        JsonView::Object(entries) => forall|i: int|
            0 <= i < entries.len() ==> holds_integers_only((#[trigger] entries[i]).1),
        _ => true,
    }
}

/// Whether the parser can read a value back from its text: its numbers are integers, it is nested
/// at most `depth` deep, and no object begins with the key that `serde_json` keeps for itself.
pub open spec fn can_be_read(v: JsonView, depth: nat) -> bool
    decreases v,
{
    match v {
        JsonView::Number(n) => is_integer(n),
        JsonView::Array(items) => {
            &&& depth > 0
            &&& forall|i: int|
                0 <= i < items.len() ==> can_be_read(#[trigger] items[i], (depth - 1) as nat)
        },
        JsonView::Object(entries) => {
            &&& depth > 0
            &&& forall|i: int|
                0 <= i < entries.len() ==> can_be_read(
                    (#[trigger] entries[i]).1,
                    (depth - 1) as nat,
                )
            &&& entries.len() > 0 ==> entries[0].0 != "$serde_json::private::RawValue"@
        },
        _ => true,
    }
}

/// Whether a text can stand behind a value: nothing, or what ends or separates values.
spec fn follows_value(s: Seq<char>) -> bool {
    s.len() == 0 || s[0] == ',' || s[0] == ']' || s[0] == '}'
}

/// Different hexadecimal digits are written differently.
proof fn lemma_hex_digit(a: int, b: int)
    requires
        0 <= a < 16,
        0 <= b < 16,
        hex_digit(a) == hex_digit(b),
    ensures
        a == b,
{
}

/// A hexadecimal digit is a digit or a letter.
proof fn lemma_hex_is_plain(d: int)
    requires
        0 <= d < 16,
    ensures
        '0' <= hex_digit(d) <= '9' || 'a' <= hex_digit(d) <= 'f',
{
}

/// Where an escaped character ends, and which one it is, shows in the text that begins with it.
proof fn lemma_escaped_char(c: char, d: char, u: Seq<char>, w: Seq<char>)
    requires
        escaped_char(c) + u == escaped_char(d) + w,
    ensures
        c == d,
        u == w,
{
    let p = escaped_char(c);
    let q = escaped_char(d);
    let x = p + u;
    assert(x[0] == p[0] && x[0] == q[0]);
    if p[0] == '\\' {
        assert(x[1] == p[1] && x[1] == q[1]);
        if p[1] == 'u' {
            assert(x[4] == p[4] && x[4] == q[4]);
            assert(x[5] == p[5] && x[5] == q[5]);
            lemma_hex_digit((c as int) / 16, (d as int) / 16);
            lemma_hex_digit((c as int) % 16, (d as int) % 16);
        }
    }
    assert(c == d);
    assert(u =~= x.skip(p.len() as int));
    assert(w =~= x.skip(p.len() as int));
}

/// The first character can be escaped apart from the rest.
proof fn lemma_escaped_front(s: Seq<char>)
    requires
        s.len() > 0,
    ensures
        escaped(s) == escaped_char(s[0]) + escaped(s.skip(1)),
    decreases s.len(),
{
    let rest = s.drop_last();
    if s.len() == 1 {
        assert(escaped(rest) =~= Seq::empty());
        assert(escaped(s) =~= escaped_char(s[0]) + escaped(s.skip(1)));
    } else {
        lemma_escaped_front(rest);
        assert(s.skip(1).drop_last() =~= rest.skip(1));
        assert(escaped(s) =~= escaped_char(s[0]) + escaped(s.skip(1)));
    }
}

proof fn lemma_escaped_apart(a: Seq<char>, b: Seq<char>, u: Seq<char>, w: Seq<char>)
    requires
        escaped(a) + seq!['"'] + u == escaped(b) + seq!['"'] + w,
    ensures
        a == b,
        u == w,
    decreases a.len(),
{
    let x = escaped(a) + seq!['"'] + u;
    let y = escaped(b) + seq!['"'] + w;
    if a.len() > 0 {
        lemma_escaped_front(a);
        assert(x =~= escaped_char(a[0]) + (escaped(a.skip(1)) + seq!['"'] + u));
        assert(escaped_char(a[0])[0] != '"');
        assert(x[0] == escaped_char(a[0])[0]);
    } else {
        assert(x[0] == '"');
    }
    if b.len() > 0 {
        lemma_escaped_front(b);
        assert(y =~= escaped_char(b[0]) + (escaped(b.skip(1)) + seq!['"'] + w));
        assert(escaped_char(b[0])[0] != '"');
        assert(y[0] == escaped_char(b[0])[0]);
    } else {
        assert(y[0] == '"');
    }
    if a.len() == 0 || b.len() == 0 {
        assert(a =~= b);
        assert(u =~= x.skip(1));
        assert(w =~= y.skip(1));
    } else {
        lemma_escaped_char(
            a[0],
            b[0],
            escaped(a.skip(1)) + seq!['"'] + u,
            escaped(b.skip(1)) + seq!['"'] + w,
        );
        lemma_escaped_apart(a.skip(1), b.skip(1), u, w);
        assert(a =~= seq![a[0]] + a.skip(1));
        assert(b =~= seq![b[0]] + b.skip(1));
    }
}

/// Where a string ends, and which one it is, shows in the text that begins with it.
proof fn lemma_quoted_apart(a: Seq<char>, b: Seq<char>, u: Seq<char>, w: Seq<char>)
    requires
        quoted(a) + u == quoted(b) + w,
    ensures
        a == b,
        u == w,
{
    let x = quoted(a) + u;
    let y = quoted(b) + w;
    assert(x.skip(1) =~= escaped(a) + seq!['"'] + u);
    assert(y.skip(1) =~= escaped(b) + seq!['"'] + w);
    lemma_escaped_apart(a, b, u, w);
}

/// A number is written in digits.
proof fn lemma_decimal(n: nat)
    ensures
        decimal(n).len() > 0,
        forall|i: int| 0 <= i < decimal(n).len() ==> '0' <= #[trigger] decimal(n)[i] <= '9',
    decreases n,
{
    if n >= 10 {
        lemma_decimal(n / 10);
    }
}

/// The text of an integer: digits, behind a minus sign or not.
proof fn lemma_integer(n: NumberView)
    requires
        is_integer(n),
    ensures
        n.text.len() > 0,
        '0' <= n.text[0] <= '9' || n.text[0] == '-',
        n.whole is Some <==> n.text[0] != '-',
        forall|i: int| 1 <= i < n.text.len() ==> '0' <= #[trigger] n.text[i] <= '9',
{
    match n.whole {
        Some(k) => {
            lemma_decimal(k as nat);
        },
        None => {
            let k = choose|k: nat|
                1 <= k <= 0x8000_0000_0000_0000 && n.text == seq!['-'] + #[trigger] decimal(k);
            lemma_decimal(k);
            assert forall|i: int| 1 <= i < n.text.len() implies '0' <= #[trigger] n.text[i]
                <= '9' by {
                assert(n.text[i] == decimal(k)[i - 1]);
            }
        },
    }
}

/// Where an integer ends, and which one it is, shows in the text that begins with it.
proof fn lemma_integer_apart(m: NumberView, n: NumberView, s: Seq<char>, t: Seq<char>)
    requires
        is_integer(m),
        is_integer(n),
        follows_value(s),
        follows_value(t),
        m.text + s == n.text + t,
    ensures
        m == n,
        s == t,
{
    let x = m.text + s;
    let y = n.text + t;
    lemma_integer(m);
    lemma_integer(n);
    if m.text.len() < n.text.len() {
        assert(x[m.text.len() as int] == s[0]);
        assert(y[m.text.len() as int] == n.text[m.text.len() as int]);
    }
    if n.text.len() < m.text.len() {
        assert(y[n.text.len() as int] == t[0]);
        assert(x[n.text.len() as int] == m.text[n.text.len() as int]);
    }
    assert(m.text =~= x.take(m.text.len() as int));
    assert(n.text =~= y.take(n.text.len() as int));
    assert(s =~= x.skip(m.text.len() as int));
    assert(t =~= y.skip(n.text.len() as int));
    if let (Some(j), Some(k)) = (m.whole, n.whole) {
        law_decimal_is_read_back(j as nat, u64::MAX as nat);
        law_decimal_is_read_back(k as nat, u64::MAX as nat);
        assert(Ok::<nat, NumberError>(j as nat) == Ok::<nat, NumberError>(k as nat));
    }
}

/// The parts from the `i`-th on, with commas between neighbours.
spec fn tail(parts: Seq<Seq<char>>, i: int) -> Seq<char>
    decreases parts.len() - i,
{
    if i >= parts.len() {
        Seq::empty()
    } else if i == parts.len() - 1 {
        parts[i]
    } else {
        parts[i] + ","@ + tail(parts, i + 1)
    }
}

proof fn lemma_join_tail(parts: Seq<Seq<char>>, i: int)
    requires
        0 <= i < parts.len(),
    ensures
        join_texts(parts, ","@) == if i == 0 {
            tail(parts, 0)
        } else {
            join_texts(parts.take(i), ","@) + ","@ + tail(parts, i)
        },
    decreases parts.len() - i,
{
    if i == parts.len() - 1 {
        assert(parts.drop_last() =~= parts.take(i));
    } else {
        lemma_join_tail(parts, i + 1);
        let upto = parts.take(i + 1);
        assert(upto.drop_last() =~= parts.take(i));
        assert(upto.last() == parts[i]);
        if i == 0 {
            assert(upto[0] == parts[0]);
        }
        assert(join_texts(parts, ","@) =~= if i == 0 {
            tail(parts, 0)
        } else {
            join_texts(parts.take(i), ","@) + ","@ + tail(parts, i)
        });
    }
}

/// The members of an object as texts.
spec fn member_parts(members: Seq<(Seq<char>, Seq<char>)>) -> Seq<Seq<char>> {
    Seq::new(members.len(), |i: int| quoted(members[i].0) + ":"@ + members[i].1)
}

/// How the text of a value begins.
proof fn lemma_front(v: JsonView)
    requires
        holds_integers_only(v),
    ensures
        v.compact().len() > 0,
        match v {
            JsonView::Null => v.compact()[0] == 'n',
            JsonView::Bool(true) => v.compact()[0] == 't',
            JsonView::Bool(false) => v.compact()[0] == 'f',
            JsonView::Number(_) => '0' <= v.compact()[0] <= '9' || v.compact()[0] == '-',
            JsonView::Text(_) => v.compact()[0] == '"',
            JsonView::Array(_) => v.compact()[0] == '[',
            JsonView::Object(_) => v.compact()[0] == '{',
        },
{
    reveal_strlit("null");
    reveal_strlit("true");
    reveal_strlit("false");
    reveal_strlit("[");
    reveal_strlit("{");
    if let JsonView::Number(n) = v {
        lemma_integer(n);
    }
}

/// Where a value ends, and which one it is, shows in the text that begins with it.
proof fn lemma_apart(a: JsonView, b: JsonView, s: Seq<char>, t: Seq<char>)
    requires
        holds_integers_only(a),
        holds_integers_only(b),
        follows_value(s),
        follows_value(t),
        a.compact() + s == b.compact() + t,
    ensures
        a == b,
        s == t,
    decreases a, 0int,
{
    let x = a.compact() + s;
    let y = b.compact() + t;
    lemma_front(a);
    lemma_front(b);
    assert(x[0] == a.compact()[0] && y[0] == b.compact()[0]);
    reveal_strlit("[");
    reveal_strlit("]");
    reveal_strlit("{");
    reveal_strlit("}");
    match (a, b) {
        (JsonView::Number(m), JsonView::Number(n)) => {
            lemma_integer_apart(m, n, s, t);
        },
        (JsonView::Text(p), JsonView::Text(q)) => {
            lemma_quoted_apart(p, q, s, t);
        },
        (JsonView::Array(p), JsonView::Array(q)) => {
            let cp = compact_items(p);
            let cq = compact_items(q);
            let jp = join_texts(cp, ","@);
            let jq = join_texts(cq, ","@);
            assert(x.skip(1) =~= jp + "]"@ + s);
            assert(y.skip(1) =~= jq + "]"@ + t);
            if p.len() > 0 {
                lemma_join_tail(cp, 0);
                lemma_front(p[0]);
                lemma_tail_front(cp);
            }
            if q.len() > 0 {
                lemma_join_tail(cq, 0);
                lemma_front(q[0]);
                lemma_tail_front(cq);
            }
            if p.len() == 0 || q.len() == 0 {
                assert(p.len() == 0 ==> x.skip(1)[0] == ']');
                assert(q.len() == 0 ==> y.skip(1)[0] == ']');
                assert(p.len() > 0 ==> x.skip(1)[0] == cp[0][0]);
                assert(q.len() > 0 ==> y.skip(1)[0] == cq[0][0]);
                assert(p =~= q);
                assert(s =~= x.skip(2));
                assert(t =~= y.skip(2));
            } else {
                lemma_items_apart(p, q, 0, s, t);
                assert(p =~= q);
            }
        },
        (JsonView::Object(p), JsonView::Object(q)) => {
            let cp = member_parts(compact_values(p));
            let cq = member_parts(compact_values(q));
            assert(members_text(compact_values(p)) == join_texts(cp, ","@));
            assert(members_text(compact_values(q)) == join_texts(cq, ","@));
            let jp = join_texts(cp, ","@);
            let jq = join_texts(cq, ","@);
            assert(x.skip(1) =~= jp + "}"@ + s);
            assert(y.skip(1) =~= jq + "}"@ + t);
            if p.len() > 0 {
                lemma_join_tail(cp, 0);
                assert(cp[0][0] == '"');
                lemma_tail_front(cp);
            }
            if q.len() > 0 {
                lemma_join_tail(cq, 0);
                assert(cq[0][0] == '"');
                lemma_tail_front(cq);
            }
            if p.len() == 0 || q.len() == 0 {
                assert(p.len() == 0 ==> x.skip(1)[0] == '}');
                assert(q.len() == 0 ==> y.skip(1)[0] == '}');
                assert(p.len() > 0 ==> x.skip(1)[0] == cp[0][0]);
                assert(q.len() > 0 ==> y.skip(1)[0] == cq[0][0]);
                assert(p =~= q);
                assert(s =~= x.skip(2));
                assert(t =~= y.skip(2));
            } else {
                lemma_members_apart(p, q, 0, s, t);
                assert(p =~= q);
            }
        },
        _ => {
            assert(a == b);
            let n = a.compact().len() as int;
            assert(s =~= x.skip(n));
            assert(t =~= y.skip(n));
        },
    }
}

/// Joined parts begin as the first of them does.
proof fn lemma_tail_front(parts: Seq<Seq<char>>)
    requires
        parts.len() > 0,
        parts[0].len() > 0,
    ensures
        tail(parts, 0).len() > 0,
        tail(parts, 0)[0] == parts[0][0],
{
}

proof fn lemma_items_apart(
    p: Seq<JsonView>,
    q: Seq<JsonView>,
    i: int,
    s: Seq<char>,
    t: Seq<char>,
)
    requires
        0 <= i < p.len(),
        i < q.len(),
        forall|k: int| 0 <= k < p.len() ==> holds_integers_only(#[trigger] p[k]),
        forall|k: int| 0 <= k < q.len() ==> holds_integers_only(#[trigger] q[k]),
        tail(compact_items(p), i) + "]"@ + s == tail(compact_items(q), i) + "]"@ + t,
    ensures
        p.len() == q.len(),
        forall|k: int| i <= k < p.len() ==> #[trigger] p[k] == q[k],
        s == t,
    decreases p, p.len() - i,
{
    reveal_strlit("]");
    reveal_strlit(",");
    let cp = compact_items(p);
    let cq = compact_items(q);
    let u = if i == p.len() - 1 {
        "]"@ + s
    } else {
        ","@ + (tail(cp, i + 1) + "]"@ + s)
    };
    let w = if i == q.len() - 1 {
        "]"@ + t
    } else {
        ","@ + (tail(cq, i + 1) + "]"@ + t)
    };
    assert(tail(cp, i) + "]"@ + s =~= p[i].compact() + u);
    assert(tail(cq, i) + "]"@ + t =~= q[i].compact() + w);
    assert(decreases_to!(p => p[i]));
    lemma_apart(p[i], q[i], u, w);
    assert(u[0] == w[0]);
    if i == p.len() - 1 {
        assert(i == q.len() - 1);
        assert(s =~= u.skip(1));
        assert(t =~= w.skip(1));
    } else {
        assert(i != q.len() - 1);
        assert(tail(cp, i + 1) + "]"@ + s =~= u.skip(1));
        assert(tail(cq, i + 1) + "]"@ + t =~= w.skip(1));
        lemma_items_apart(p, q, i + 1, s, t);
    }
}

proof fn lemma_members_apart(
    p: Seq<(Seq<char>, JsonView)>,
    q: Seq<(Seq<char>, JsonView)>,
    i: int,
    s: Seq<char>,
    t: Seq<char>,
)
    requires
        0 <= i < p.len(),
        i < q.len(),
        forall|k: int| 0 <= k < p.len() ==> holds_integers_only((#[trigger] p[k]).1),
        forall|k: int| 0 <= k < q.len() ==> holds_integers_only((#[trigger] q[k]).1),
        tail(member_parts(compact_values(p)), i) + "}"@ + s == tail(
            member_parts(compact_values(q)),
            i,
        ) + "}"@ + t,
    ensures
        p.len() == q.len(),
        forall|k: int| i <= k < p.len() ==> #[trigger] p[k] == q[k],
        s == t,
    decreases p, p.len() - i,
{
    reveal_strlit("}");
    reveal_strlit(",");
    reveal_strlit(":");
    let cp = member_parts(compact_values(p));
    let cq = member_parts(compact_values(q));
    let u = if i == p.len() - 1 {
        "}"@ + s
    } else {
        ","@ + (tail(cp, i + 1) + "}"@ + s)
    };
    let w = if i == q.len() - 1 {
        "}"@ + t
    } else {
        ","@ + (tail(cq, i + 1) + "}"@ + t)
    };
    let m = ":"@ + (p[i].1.compact() + u);
    let n = ":"@ + (q[i].1.compact() + w);
    assert(cp[i] == quoted(p[i].0) + ":"@ + p[i].1.compact());
    assert(cq[i] == quoted(q[i].0) + ":"@ + q[i].1.compact());
    assert(tail(cp, i) + "}"@ + s =~= quoted(p[i].0) + m);
    assert(tail(cq, i) + "}"@ + t =~= quoted(q[i].0) + n);
    lemma_quoted_apart(p[i].0, q[i].0, m, n);
    assert(p[i].1.compact() + u =~= m.skip(1));
    assert(q[i].1.compact() + w =~= n.skip(1));
    assert(decreases_to!(p => p[i]));
    assert(decreases_to!(p[i] => p[i].1));
    lemma_apart(p[i].1, q[i].1, u, w);
    assert(u[0] == w[0]);
    if i == p.len() - 1 {
        assert(i == q.len() - 1);
        assert(s =~= u.skip(1));
        assert(t =~= w.skip(1));
    } else {
        assert(i != q.len() - 1);
        assert(tail(cp, i + 1) + "}"@ + s =~= u.skip(1));
        assert(tail(cq, i + 1) + "}"@ + t =~= w.skip(1));
        lemma_members_apart(p, q, i + 1, s, t);
    }
}

/// Different values have different texts.
pub proof fn law_text_tells_values_apart(a: JsonView, b: JsonView)
    requires
        holds_integers_only(a),
        holds_integers_only(b),
        a.compact() == b.compact(),
    ensures
        a == b,
{
    let none = Seq::<char>::empty();
    assert(a.compact() + none =~= a.compact());
    assert(b.compact() + none =~= b.compact());
    lemma_apart(a, b, none, none);
}

/// Sorting members changes no number.
proof fn lemma_sorted_integers(v: JsonView)
    requires
        holds_integers_only(v),
    ensures
        holds_integers_only(v.sorted()),
    decreases v,
{
    match v {
        JsonView::Array(items) => {
            let after = sorted_items(items);
            assert forall|i: int| 0 <= i < after.len() implies holds_integers_only(
                #[trigger] after[i],
            ) by {
                lemma_sorted_integers(items[i]);
            }
        },
        JsonView::Object(entries) => {
            let values = sorted_values(entries);
            let after = sort_entries(values);
            lemma_sort_entries(values);
            assert forall|i: int| 0 <= i < after.len() implies holds_integers_only(
                (#[trigger] after[i]).1,
            ) by {
                assert(after.contains(after[i]));
                let k = values.index_of(after[i]);
                lemma_sorted_integers(entries[k].1);
                assert(values[k].1 == entries[k].1.sorted());
            }
        },
        _ => {},
    }
}

/// Values that are the same once their members are sorted hold the same content.
proof fn lemma_same_sorted(a: JsonView, b: JsonView)
    requires
        a.wf(),
        b.wf(),
        a.sorted() == b.sorted(),
    ensures
        same_content(a, b),
    decreases a,
{
    match (a, b) {
        (JsonView::Array(x), JsonView::Array(y)) => {
            let p = sorted_items(x);
            let q = sorted_items(y);
            assert(p == q);
            assert(x.len() == p.len() && y.len() == q.len());
            assert forall|i: int| 0 <= i < x.len() implies same_content(#[trigger] x[i], y[i]) by {
                assert(p[i] == x[i].sorted() && q[i] == y[i].sorted());
                assert(y[i].wf());
                lemma_same_sorted(x[i], y[i]);
            }
        },
        (JsonView::Object(x), JsonView::Object(y)) => {
            let p = sorted_values(x);
            let q = sorted_values(y);
            lemma_sort_entries(p);
            lemma_sort_entries(q);
            assert(sort_entries(p) == sort_entries(q));
            assert forall|i: int| 0 <= i < x.len() implies match field(y, (#[trigger] x[i]).0) {
                Some(w) => same_content(x[i].1, w),
                None => false,
            } by {
                assert(p[i] == (x[i].0, x[i].1.sorted()));
                assert(p.contains(p[i]));
                assert(sort_entries(p).contains(p[i]));
                assert(q.contains(p[i]));
                let k = q.index_of(p[i]);
                assert(y[k].0 == x[i].0 && y[k].1.sorted() == x[i].1.sorted());
                lemma_position(y, x[i].0);
                let m = position(y, x[i].0)->0;
                if position(y, x[i].0) is Some && m != k {
                    if m < k {
                        assert(y[m].0 != y[k].0);
                    } else {
                        assert(y[k].0 != y[m].0);
                    }
                }
                assert(y[k].1.wf());
                lemma_same_sorted(x[i].1, y[k].1);
            }
        },
        _ => {},
    }
}

/// The canonical text tells contents apart: two values without fractions have the same canonical
/// text exactly if they differ at most in the order of members.
pub proof fn law_canonical_tells_content_apart(a: JsonView, b: JsonView)
    requires
        a.wf(),
        b.wf(),
        holds_integers_only(a),
        holds_integers_only(b),
    ensures
        canonical_text(a) == canonical_text(b) <==> same_content(a, b),
{
    if same_content(a, b) {
        law_canonical_ignores_order(a, b);
    }
    if canonical_text(a) == canonical_text(b) {
        law_canonical_is_sorted_compact(a);
        law_canonical_is_sorted_compact(b);
        lemma_sorted_integers(a);
        lemma_sorted_integers(b);
        law_text_tells_values_apart(a.sorted(), b.sorted());
        lemma_same_sorted(a, b);
    }
}

/// Where in a JSON text a character stands.
pub enum Place {
    Outside,
    /// Inside a string.
    Inside,
    /// Inside a string, behind a backslash.
    Escape,
}

/// The place behind a character; none once white space has stood outside a string.
pub open spec fn place_behind(place: Option<Place>, c: char) -> Option<Place> {
    match place {
        None => None,
        Some(Place::Outside) => if c == ' ' || c == '\n' || c == '\t' || c == '\r' {
            None
        } else if c == '"' {
            Some(Place::Inside)
        } else {
            Some(Place::Outside)
        },
        Some(Place::Inside) => if c == '"' {
            Some(Place::Outside)
        } else if c == '\\' {
            Some(Place::Escape)
        } else {
            Some(Place::Inside)
        },
        Some(Place::Escape) => Some(Place::Inside),
    }
}

/// The place behind a text.
pub open spec fn place_after(place: Option<Place>, text: Seq<char>) -> Option<Place>
    decreases text.len(),
{
    if text.len() == 0 {
        place
    } else {
        place_behind(place_after(place, text.drop_last()), text.last())
    }
}

/// Whether every string of a text is closed, and no white space stands outside them.
pub open spec fn has_no_blanks(text: Seq<char>) -> bool {
    place_after(Some(Place::Outside), text) == Some(Place::Outside)
}

proof fn lemma_place_concat(place: Option<Place>, a: Seq<char>, b: Seq<char>)
    ensures
        place_after(place, a + b) == place_after(place_after(place, a), b),
    decreases b.len(),
{
    if b.len() == 0 {
        assert(a + b =~= a);
    } else {
        lemma_place_concat(place, a, b.drop_last());
        assert((a + b).drop_last() =~= a + b.drop_last());
    }
}

proof fn lemma_place_one(place: Option<Place>, c: char)
    ensures
        place_after(place, seq![c]) == place_behind(place, c),
{
    assert(seq![c].drop_last() =~= Seq::empty());
    assert(place_after(place, seq![c].drop_last()) == place);
}

/// A text of characters that are neither blanks nor quotes.
proof fn lemma_plain_has_no_blanks(text: Seq<char>)
    requires
        forall|i: int|
            0 <= i < text.len() ==> {
                let c = #[trigger] text[i];
                c != ' ' && c != '\n' && c != '\t' && c != '\r' && c != '"'
            },
    ensures
        has_no_blanks(text),
    decreases text.len(),
{
    if text.len() > 0 {
        lemma_plain_has_no_blanks(text.drop_last());
    }
}

proof fn lemma_no_blanks_concat(a: Seq<char>, b: Seq<char>)
    requires
        has_no_blanks(a),
        has_no_blanks(b),
    ensures
        has_no_blanks(a + b),
{
    lemma_place_concat(Some(Place::Outside), a, b);
}

proof fn lemma_escape_stays_inside(c: char)
    ensures
        place_after(Some(Place::Inside), escaped_char(c)) == Some(Place::Inside),
{
    let inside = Some(Place::Inside);
    let e = escaped_char(c);
    lemma_place_one(inside, e[0]);
    if e.len() == 1 {
        assert(e =~= seq![e[0]]);
    } else {
        let two = seq![e[0], e[1]];
        assert(two.drop_last() =~= seq![e[0]]);
        assert(place_after(inside, two) == inside);
        if e.len() == 2 {
            assert(e =~= two);
        } else {
            lemma_hex_is_plain((c as int) / 16);
            lemma_hex_is_plain((c as int) % 16);
            let three = two.push(e[2]);
            let four = three.push(e[3]);
            let five = four.push(e[4]);
            assert(three.drop_last() =~= two);
            assert(four.drop_last() =~= three);
            assert(five.drop_last() =~= four);
            assert(e.drop_last() =~= five);
            assert(place_after(inside, three) == inside);
            assert(place_after(inside, four) == inside);
            assert(place_after(inside, five) == inside);
        }
    }
}

proof fn lemma_escaped_stays_inside(s: Seq<char>)
    ensures
        place_after(Some(Place::Inside), escaped(s)) == Some(Place::Inside),
    decreases s.len(),
{
    if s.len() > 0 {
        lemma_escaped_stays_inside(s.drop_last());
        lemma_escape_stays_inside(s.last());
        lemma_place_concat(
            Some(Place::Inside),
            escaped(s.drop_last()),
            escaped_char(s.last()),
        );
    }
}

proof fn lemma_quoted_has_no_blanks(s: Seq<char>)
    ensures
        has_no_blanks(quoted(s)),
{
    let outside = Some(Place::Outside);
    lemma_escaped_stays_inside(s);
    lemma_place_one(outside, '"');
    lemma_place_one(Some(Place::Inside), '"');
    lemma_place_concat(outside, seq!['"'], escaped(s));
    lemma_place_concat(outside, seq!['"'] + escaped(s), seq!['"']);
}

proof fn lemma_join_has_no_blanks(parts: Seq<Seq<char>>)
    requires
        forall|i: int| 0 <= i < parts.len() ==> has_no_blanks(#[trigger] parts[i]),
    ensures
        has_no_blanks(join_texts(parts, ","@)),
    decreases parts.len(),
{
    reveal_strlit(",");
    lemma_plain_has_no_blanks(","@);
    if parts.len() > 1 {
        let rest = parts.drop_last();
        assert forall|i: int| 0 <= i < rest.len() implies has_no_blanks(#[trigger] rest[i]) by {
            assert(has_no_blanks(parts[i]));
        }
        lemma_join_has_no_blanks(rest);
        lemma_no_blanks_concat(join_texts(rest, ","@), ","@);
        assert(has_no_blanks(parts[parts.len() - 1]));
        lemma_no_blanks_concat(join_texts(rest, ","@) + ","@, parts.last());
    } else if parts.len() == 1 {
        assert(has_no_blanks(parts[0]));
    }
}

proof fn lemma_compact_has_no_blanks(v: JsonView)
    requires
        holds_integers_only(v),
    ensures
        has_no_blanks(v.compact()),
    decreases v,
{
    reveal_strlit("null");
    reveal_strlit("true");
    reveal_strlit("false");
    reveal_strlit("[");
    reveal_strlit("]");
    reveal_strlit("{");
    reveal_strlit("}");
    reveal_strlit(":");
    match v {
        JsonView::Null | JsonView::Bool(_) => {
            lemma_plain_has_no_blanks(v.compact());
        },
        JsonView::Number(n) => {
            lemma_integer(n);
            lemma_plain_has_no_blanks(n.text);
        },
        JsonView::Text(s) => {
            lemma_quoted_has_no_blanks(s);
        },
        JsonView::Array(items) => {
            let parts = compact_items(items);
            assert forall|i: int| 0 <= i < parts.len() implies has_no_blanks(
                #[trigger] parts[i],
            ) by {
                lemma_compact_has_no_blanks(items[i]);
            }
            lemma_join_has_no_blanks(parts);
            lemma_plain_has_no_blanks("["@);
            lemma_plain_has_no_blanks("]"@);
            lemma_no_blanks_concat("["@, join_texts(parts, ","@));
            lemma_no_blanks_concat("["@ + join_texts(parts, ","@), "]"@);
        },
        JsonView::Object(entries) => {
            let parts = member_parts(compact_values(entries));
            lemma_plain_has_no_blanks(":"@);
            assert forall|i: int| 0 <= i < parts.len() implies has_no_blanks(
                #[trigger] parts[i],
            ) by {
                lemma_quoted_has_no_blanks(entries[i].0);
                lemma_compact_has_no_blanks(entries[i].1);
                lemma_no_blanks_concat(quoted(entries[i].0), ":"@);
                lemma_no_blanks_concat(quoted(entries[i].0) + ":"@, entries[i].1.compact());
            }
            lemma_join_has_no_blanks(parts);
            assert(members_text(compact_values(entries)) == join_texts(parts, ","@));
            lemma_plain_has_no_blanks("{"@);
            lemma_plain_has_no_blanks("}"@);
            lemma_no_blanks_concat("{"@, join_texts(parts, ","@));
            lemma_no_blanks_concat("{"@ + join_texts(parts, ","@), "}"@);
        },
    }
}

/// In the canonical text of a value without fractions, white space stands nowhere but inside
/// strings.
pub proof fn law_canonical_text_has_no_blanks(v: JsonView)
    requires
        holds_integers_only(v),
    ensures
        has_no_blanks(canonical_text(v)),
{
    law_canonical_is_sorted_compact(v);
    lemma_sorted_integers(v);
    lemma_compact_has_no_blanks(v.sorted());
}

} // verus!
