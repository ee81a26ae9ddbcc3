//! JSON values.
//!
//! [`Json`] is the tree that the rest of the library reads and rewrites, and [`JsonView`] is its
//! mathematical model. Objects are lists of entries in some order; the entries of one object
//! have different keys. Numbers are carried as `serde_json` holds them.
use crate::codec::{
    close_value, copy_number, number_view, open_value, value_entries, value_view, Node, NumberView,
};
use crate::order::{distinct_keys, sort_entries};
use crate::text::{join_texts, same_text};
use vstd::prelude::*;

verus! {

/// A JSON value.
#[derive(Debug, PartialEq)]
pub enum Json {
    Null,
    Bool(bool),
    Number(serde_json::Number),
    Text(String),
    Array(Vec<Json>),
    Object(Vec<(String, Json)>),
}

/// The model of a JSON value.
pub enum JsonView {
    Null,
    Bool(bool),
    Number(NumberView),
    Text(Seq<char>),
    Array(Seq<JsonView>),
    Object(Seq<(Seq<char>, JsonView)>),
}

/// The hexadecimal digit of value `d`, in lower case.
pub open spec fn hex_digit(d: int) -> char {
    if d < 10 {
        (48 + d) as char
    } else {
        (87 + d) as char
    }
}

/// A character as it stands inside a JSON string.
pub open spec fn escaped_char(c: char) -> Seq<char> {
    if c == '"' {
        seq!['\\', '"']
    } else if c == '\\' {
        seq!['\\', '\\']
    } else if c == '\u{8}' {
        seq!['\\', 'b']
    } else if c == '\u{9}' {
        seq!['\\', 't']
    } else if c == '\u{a}' {
        seq!['\\', 'n']
    } else if c == '\u{c}' {
        seq!['\\', 'f']
    } else if c == '\u{d}' {
        seq!['\\', 'r']
    } else if (c as int) < 32 {
        seq!['\\', 'u', '0', '0', hex_digit((c as int) / 16), hex_digit((c as int) % 16)]
    } else {
        seq![c]
    }
}

/// The characters of a text as they stand inside a JSON string.
pub open spec fn escaped(s: Seq<char>) -> Seq<char>
    decreases s.len(),
{
    if s.len() == 0 {
        Seq::empty()
    } else {
        escaped(s.drop_last()) + escaped_char(s.last())
    }
}

/// A text as a JSON string.
pub open spec fn quoted(s: Seq<char>) -> Seq<char> {
    seq!['"'] + escaped(s) + seq!['"']
}

/// The members of an object, each given by its key and the text of its value.
pub open spec fn members_text(members: Seq<(Seq<char>, Seq<char>)>) -> Seq<char> {
    join_texts(
        Seq::new(members.len(), |i: int| quoted(members[i].0) + ":"@ + members[i].1),
        ","@,
    )
}

/// Where the entry under `name` stands.
pub open spec fn position<V>(entries: Seq<(Seq<char>, V)>, name: Seq<char>) -> Option<int>
    decreases entries.len(),
{
    if entries.len() == 0 {
        None
    } else {
        match position(entries.drop_last(), name) {
            Some(i) => Some(i),
            None => if entries.last().0 == name {
                Some(entries.len() - 1)
            } else {
                None
            },
        }
    }
}

/// What stands under `name`.
pub open spec fn field<V>(entries: Seq<(Seq<char>, V)>, name: Seq<char>) -> Option<V> {
    match position(entries, name) {
        Some(i) => Some(entries[i].1),
        None => None,
    }
}

impl JsonView {
    /// The entries of every object in the tree have different keys.
    pub open spec fn wf(self) -> bool
        decreases self,
    {
        match self {
            JsonView::Array(items) => forall|i: int|
                0 <= i < items.len() ==> (#[trigger] items[i]).wf(),
            JsonView::Object(entries) => {
                &&& distinct_keys(entries)
                &&& forall|i: int| 0 <= i < entries.len() ==> (#[trigger] entries[i]).1.wf()
            },
            _ => true,
        }
    }

    /// The value with the entries of every object sorted by key.
    pub open spec fn sorted(self) -> JsonView
        decreases self,
    {
        match self {
            JsonView::Array(items) => JsonView::Array(sorted_items(items)),
            JsonView::Object(entries) => JsonView::Object(sort_entries(sorted_values(entries))),
            other => other,
        }
    }

    /// The value as JSON text without white space.
    pub open spec fn compact(self) -> Seq<char>
        decreases self,
    {
        match self {
            JsonView::Null => "null"@,
            JsonView::Bool(b) => if b {
                "true"@
            } else {
                "false"@
            },
            JsonView::Number(n) => n.text,
            JsonView::Text(s) => quoted(s),
            JsonView::Array(items) => "["@ + join_texts(compact_items(items), ","@) + "]"@,
            JsonView::Object(entries) => "{"@ + members_text(compact_values(entries)) + "}"@,
        }
    }

    /// The value as indented JSON text.
    pub open spec fn pretty(self) -> Seq<char> {
        self.pretty_at(0)
    }

    /// The value as indented JSON text, standing on a line that is indented `depth` times: every
    /// item of a list and every member of an object stands on a line of its own, indented once
    /// more.
    pub open spec fn pretty_at(self, depth: nat) -> Seq<char>
        decreases self,
    {
        match self {
            JsonView::Array(items) => if items.len() == 0 {
                "[]"@
            } else {
                "["@ + new_line(depth + 1) + join_texts(
                    pretty_items(items, depth + 1),
                    ","@ + new_line(depth + 1),
                ) + new_line(depth) + "]"@
            },
            JsonView::Object(entries) => if entries.len() == 0 {
                "{}"@
            } else {
                "{"@ + new_line(depth + 1) + join_texts(
                    pretty_members(entries, depth + 1),
                    ","@ + new_line(depth + 1),
                ) + new_line(depth) + "}"@
            },
            other => other.compact(),
        }
    }

    /// What stands under `name`, if this is an object that has it.
    pub open spec fn get(self, name: Seq<char>) -> Option<JsonView> {
        match self {
            JsonView::Object(entries) => field(entries, name),
            _ => None,
        }
    }

    /// What stands under `name`, or null.
    pub open spec fn get_or_null(self, name: Seq<char>) -> JsonView {
        match self.get(name) {
            Some(v) => v,
            None => JsonView::Null,
        }
    }

    /// The text that stands under `name`, if one does.
    pub open spec fn get_text(self, name: Seq<char>) -> Option<Seq<char>> {
        match self.get(name) {
            Some(JsonView::Text(s)) => Some(s),
            _ => None,
        }
    }

    /// The text under `name`, or `default` where none stands.
    pub open spec fn get_text_or(self, name: Seq<char>, default: Seq<char>) -> Seq<char> {
        match self.get_text(name) {
            Some(s) => s,
            None => default,
        }
    }

    /// The unsigned number under `name`, or zero where none stands.
    pub open spec fn get_count(self, name: Seq<char>) -> u64 {
        match self.get(name) {
            Some(JsonView::Number(n)) => match n.whole {
                Some(count) => count,
                None => 0,
            },
            _ => 0,
        }
    }

    /// The list under `name`, or an empty one where none stands.
    pub open spec fn get_list(self, name: Seq<char>) -> Seq<JsonView> {
        match self.get(name) {
            Some(JsonView::Array(items)) => items,
            _ => Seq::empty(),
        }
    }
}

/// The values of a list, each with its entries sorted.
pub open spec fn sorted_items(items: Seq<JsonView>) -> Seq<JsonView>
    decreases items,
{
    Seq::new(
        items.len(),
        |i: int|
            if 0 <= i < items.len() {
                items[i].sorted()
            } else {
                JsonView::Null
            },
    )
}

/// The entries of an object, the value of each with its entries sorted.
pub open spec fn sorted_values(entries: Seq<(Seq<char>, JsonView)>) -> Seq<(Seq<char>, JsonView)>
    decreases entries,
{
    Seq::new(
        entries.len(),
        |i: int|
            if 0 <= i < entries.len() {
                (entries[i].0, entries[i].1.sorted())
            } else {
                (Seq::empty(), JsonView::Null)
            },
    )
}

/// The texts of the values of a list.
pub open spec fn compact_items(items: Seq<JsonView>) -> Seq<Seq<char>>
    decreases items,
{
    Seq::new(
        items.len(),
        |i: int|
            if 0 <= i < items.len() {
                items[i].compact()
            } else {
                Seq::empty()
            },
    )
}

/// The entries of an object, the value of each as its text.
pub open spec fn compact_values(entries: Seq<(Seq<char>, JsonView)>) -> Seq<(Seq<char>, Seq<char>)>
    decreases entries,
{
    Seq::new(
        entries.len(),
        |i: int|
            if 0 <= i < entries.len() {
                (entries[i].0, entries[i].1.compact())
            } else {
                (Seq::empty(), Seq::empty())
            },
    )
}

/// The end of a line and the indentation of the next, two blanks for each level.
pub open spec fn new_line(depth: nat) -> Seq<char> {
    seq!['\n'] + Seq::new(2 * depth, |i: int| ' ')
}

/// The indented texts of the values of a list.
pub open spec fn pretty_items(items: Seq<JsonView>, depth: nat) -> Seq<Seq<char>>
    decreases items,
{
    Seq::new(
        items.len(),
        |i: int|
            if 0 <= i < items.len() {
                items[i].pretty_at(depth)
            } else {
                Seq::empty()
            },
    )
}

/// The indented texts of the members of an object.
pub open spec fn pretty_members(entries: Seq<(Seq<char>, JsonView)>, depth: nat) -> Seq<Seq<char>>
    decreases entries,
{
    Seq::new(
        entries.len(),
        |i: int|
            if 0 <= i < entries.len() {
                quoted(entries[i].0) + ": "@ + entries[i].1.pretty_at(depth)
            } else {
                Seq::empty()
            },
    )
}

/// The models of the values of a list.
pub open spec fn item_views(items: Seq<Json>) -> Seq<JsonView>
    decreases items,
{
    Seq::new(
        items.len(),
        |i: int|
            if 0 <= i < items.len() {
                items[i].model()
            } else {
                JsonView::Null
            },
    )
}

/// The models of the entries of an object.
pub open spec fn entry_views(entries: Seq<(String, Json)>) -> Seq<(Seq<char>, JsonView)>
    decreases entries,
{
    Seq::new(
        entries.len(),
        |i: int|
            if 0 <= i < entries.len() {
                (entries[i].0@, entries[i].1.model())
            } else {
                (Seq::empty(), JsonView::Null)
            },
    )
}

impl View for Json {
    type V = JsonView;

    open spec fn view(&self) -> JsonView {
        self.model()
    }
}

impl Json {
    /// The model of the value.
    pub open spec fn model(&self) -> JsonView
        decreases self,
    {
        match self {
            Json::Null => JsonView::Null,
            Json::Bool(b) => JsonView::Bool(*b),
            Json::Number(n) => JsonView::Number(number_view(*n)),
            Json::Text(s) => JsonView::Text(s@),
            Json::Array(items) => JsonView::Array(item_views(items@)),
            Json::Object(entries) => JsonView::Object(entry_views(entries@)),
        }
    }
}

/// The first entry under a name is where a search from the front stops.
pub proof fn lemma_position<V>(entries: Seq<(Seq<char>, V)>, name: Seq<char>)
    ensures
        match position(entries, name) {
            Some(i) => {
                &&& 0 <= i < entries.len()
                &&& entries[i].0 == name
                &&& forall|k: int| 0 <= k < i ==> (#[trigger] entries[k]).0 != name
            },
            None => forall|k: int| 0 <= k < entries.len() ==> (#[trigger] entries[k]).0 != name,
        },
    decreases entries.len(),
{
    if entries.len() > 0 {
        let rest = entries.drop_last();
        lemma_position(rest, name);
        assert forall|k: int| 0 <= k < rest.len() implies (#[trigger] entries[k]) == rest[k] by {}
    }
}

/// A search that finds the name at `i` for the first time has found its position.
pub proof fn lemma_position_at<V>(entries: Seq<(Seq<char>, V)>, name: Seq<char>, i: int)
    requires
        0 <= i < entries.len(),
        entries[i].0 == name,
        forall|k: int| 0 <= k < i ==> (#[trigger] entries[k]).0 != name,
    ensures
        position(entries, name) == Some(i),
{
    lemma_position(entries, name);
    let p = position(entries, name);
    if p is Some {
        if p->0 < i {
            assert(entries[p->0].0 != name);
        }
    }
}

/// The value under a name of a well-formed object is well-formed.
pub proof fn lemma_get_wf(v: JsonView, name: Seq<char>)
    requires
        v.wf(),
    ensures
        v.get(name) matches Some(x) ==> x.wf(),
{
    if let JsonView::Object(entries) = v {
        lemma_position(entries, name);
    }
}

/// Finds the entry under `name`.
pub fn find(entries: &Vec<(String, Json)>, name: &str) -> (r: Option<usize>)
    ensures
        match r {
            Some(i) => {
                &&& i < entries@.len()
                &&& position(entry_views(entries@), name@) == Some(i as int)
            },
            None => position(entry_views(entries@), name@) is None,
        },
{
    let ghost views = entry_views(entries@);
    for i in 0..entries.len()
        invariant
            views == entry_views(entries@),
            forall|k: int| 0 <= k < i ==> (#[trigger] views[k]).0 != name@,
    {
        if same_text(entries[i].0.as_str(), name) {
            proof {
                lemma_position_at(views, name@, i as int);
            }
            return Some(i);
        }
    }
    proof {
        lemma_position(views, name@);
    }
    None
}

impl Clone for Json {
    fn clone(&self) -> (r: Self)
        ensures
            r@ == self@,
        decreases self,
    {
        match self {
            Json::Null => Json::Null,
            Json::Bool(b) => Json::Bool(*b),
            Json::Number(n) => Json::Number(copy_number(n)),
            Json::Text(s) => Json::Text(s.clone()),
            Json::Array(items) => {
                let mut out: Vec<Json> = Vec::new();
                for i in 0..items.len()
                    invariant
                        *self == Json::Array(*items),
                        out@.len() == i,
                        forall|k: int| 0 <= k < i ==> (#[trigger] out@[k])@ == items@[k]@,
                {
                    assert(decreases_to!(*self => self->Array_0@[i as int]));
                    let copy = items[i].clone();
                    out.push(copy);
                }
                proof {
                    assert(item_views(out@) =~= item_views(items@));
                }
                Json::Array(out)
            },
            Json::Object(entries) => {
                let mut out: Vec<(String, Json)> = Vec::new();
                for i in 0..entries.len()
                    invariant
                        *self == Json::Object(*entries),
                        out@.len() == i,
                        forall|k: int|
                            0 <= k < i ==> (#[trigger] out@[k]).0@ == entries@[k].0@ && out@[k].1@
                                == entries@[k].1@,
                {
                    assert(decreases_to!(*self => self->Object_0@[i as int]));
                    assert(decreases_to!(entries@[i as int] => entries@[i as int].1));
                    let copy = entries[i].1.clone();
                    out.push((entries[i].0.clone(), copy));
                }
                proof {
                    assert(entry_views(out@) =~= entry_views(entries@));
                }
                Json::Object(out)
            },
        }
    }
}

impl Json {
    /// What stands under `name`, if this is an object that has it.
    pub fn get(&self, name: &str) -> (r: Option<&Json>)
        ensures
            match r {
                Some(v) => self@.get(name@) == Some(v@),
                None => self@.get(name@) is None,
            },
    {
        match self {
            Json::Object(entries) => {
                match find(entries, name) {
                    Some(i) => Some(&entries[i].1),
                    None => None,
                }
            },
            _ => None,
        }
    }

    /// A copy of what stands under `name`, or null.
    pub fn get_or_null(&self, name: &str) -> (r: Json)
        ensures
            r@ == self@.get_or_null(name@),
    {
        match self.get(name) {
            Some(v) => v.clone(),
            None => Json::Null,
        }
    }

    /// The text under `name`, if one stands there.
    pub fn get_text(&self, name: &str) -> (r: Option<&str>)
        ensures
            match r {
                Some(s) => self@.get_text(name@) == Some(s@),
                None => self@.get_text(name@) is None,
            },
    {
        match self.get(name) {
            Some(Json::Text(s)) => Some(s.as_str()),
            _ => None,
        }
    }

    /// The text under `name`, or `default` where none stands.
    pub fn get_text_or<'a>(&'a self, name: &str, default: &'a str) -> (r: &'a str)
        ensures
            r@ == self@.get_text_or(name@, default@),
    {
        match self.get_text(name) {
            Some(s) => s,
            None => default,
        }
    }

    /// The unsigned number under `name`, or zero where none stands.
    pub fn get_count(&self, name: &str) -> (r: u64)
        ensures
            r == self@.get_count(name@),
    {
        match self.get(name) {
            Some(Json::Number(n)) => match n.as_u64() {
                Some(count) => count,
                None => 0,
            },
            _ => 0,
        }
    }

    /// The list under `name`, if one stands there.
    pub fn get_list(&self, name: &str) -> (r: Option<&Vec<Json>>)
        ensures
            match r {
                Some(items) => {
                    &&& self@.get_list(name@) == item_views(items@)
                    &&& self@.get(name@) is Some
                },
                None => self@.get_list(name@) == Seq::<JsonView>::empty(),
            },
    {
        match self.get(name) {
            Some(Json::Array(items)) => {
                Some(items)
            },
            _ => None,
        }
    }

    /// The tree that `serde_json` has parsed.
    pub fn from_value(v: serde_json::Value) -> (r: Json)
        ensures
            r@ == value_view(v),
            r@.wf(),
        decreases value_view(v),
    {
        match open_value(v) {
            Node::Null => Json::Null,
            Node::Bool(b) => Json::Bool(b),
            Node::Number(n) => Json::Number(n),
            Node::Text(s) => Json::Text(s),
            Node::Array(items) => {
                let mut out: Vec<Json> = Vec::new();
                for item in it: items
                    invariant
                        it.seq() == items@,
                        value_view(v) == Node::Array(items).model(),
                        out@.len() == it.index(),
                        forall|k: int|
                            0 <= k < out@.len() ==> (#[trigger] out@[k])@ == value_view(items@[k])
                                && out@[k]@.wf(),
                {
                    assert(value_view(v)->Array_0[it.index()] == value_view(item));
                    assert(decreases_to!(value_view(v) => value_view(v)->Array_0[it.index()]));
                    out.push(Json::from_value(item));
                }
                proof {
                    assert(item_views(out@) =~= value_view(v)->Array_0);
                }
                Json::Array(out)
            },
            Node::Object(entries) => {
                let mut out: Vec<(String, Json)> = Vec::new();
                for entry in it: entries
                    invariant
                        it.seq() == entries@,
                        value_view(v) == Node::Object(entries).model(),
                        out@.len() == it.index(),
                        forall|k: int|
                            0 <= k < out@.len() ==> (#[trigger] out@[k]).0@ == entries@[k].0@
                                && out@[k].1@ == value_view(entries@[k].1) && out@[k].1@.wf(),
                {
                    let ghost pair = value_view(v)->Object_0[it.index()];
                    assert(pair == (entry.0@, value_view(entry.1)));
                    assert(decreases_to!(value_view(v) => pair));
                    assert(decreases_to!(pair => pair.1));
                    out.push((entry.0, Json::from_value(entry.1)));
                }
                proof {
                    assert(entry_views(out@) =~= value_view(v)->Object_0);
                }
                Json::Object(out)
            },
        }
    }

    /// The tree as `serde_json` holds it.
    pub fn into_value(self) -> (r: serde_json::Value)
        requires
            self@.wf(),
        ensures
            value_view(r) == self@.sorted(),
        decreases self,
    {
        match self {
            Json::Null => close_value(Node::Null),
            Json::Bool(b) => close_value(Node::Bool(b)),
            Json::Number(n) => close_value(Node::Number(n)),
            Json::Text(s) => close_value(Node::Text(s)),
            Json::Array(items) => {
                let mut out: Vec<serde_json::Value> = Vec::new();
                for item in it: items
                    invariant
                        it.seq() == items@,
                        self == Json::Array(items),
                        self@ == JsonView::Array(item_views(items@)),
                        self@.wf(),
                        out@.len() == it.index(),
                        forall|k: int|
                            0 <= k < out@.len() ==> value_view(#[trigger] out@[k])
                                == items@[k]@.sorted(),
                {
                    assert(self@->Array_0[it.index()] == item@);
                    assert(decreases_to!(self => items@[it.index()]));
                    out.push(item.into_value());
                }
                proof {
                    assert(Node::Array(out).model()->Array_0 =~= self@.sorted()->Array_0);
                }
                close_value(Node::Array(out))
            },
            Json::Object(entries) => {
                let mut out: Vec<(String, serde_json::Value)> = Vec::new();
                for entry in it: entries
                    invariant
                        it.seq() == entries@,
                        self == Json::Object(entries),
                        self@ == JsonView::Object(entry_views(entries@)),
                        self@.wf(),
                        out@.len() == it.index(),
                        forall|k: int|
                            0 <= k < out@.len() ==> (#[trigger] out@[k]).0@ == entries@[k].0@
                                && value_view(out@[k].1) == entries@[k].1@.sorted(),
                {
                    assert(self@->Object_0[it.index()] == (entry.0@, entry.1@));
                    assert(decreases_to!(self => entries@[it.index()]));
                    assert(decreases_to!(entries@[it.index()] => entries@[it.index()].1));
                    out.push((entry.0, entry.1.into_value()));
                }
                proof {
                    let views = entry_views(entries@);
                    assert forall|i: int, j: int| 0 <= i < j < out@.len() implies (
                    #[trigger] value_entries(out@)[i]).0 != (#[trigger] value_entries(
                        out@,
                    )[j]).0 by {
                        assert(views[i].0 != views[j].0);
                    }
                    assert(value_entries(out@) =~= sorted_values(views));
                }
                close_value(Node::Object(out))
            },
        }
    }
}

/// Every member of an object is found under its key.
pub proof fn law_members_are_found(entries: Seq<(Seq<char>, JsonView)>, i: int)
    requires
        distinct_keys(entries),
        0 <= i < entries.len(),
    ensures
        JsonView::Object(entries).get(entries[i].0) == Some(entries[i].1),
{
    assert forall|k: int| 0 <= k < i implies (#[trigger] entries[k]).0 != entries[i].0 by {}
    lemma_position_at(entries, entries[i].0, i);
}

/// Nothing but members is found.
pub proof fn law_only_members_are_found(v: JsonView, name: Seq<char>)
    ensures
        v.get(name) matches Some(x) ==> v is Object && v->Object_0.contains((name, x)),
        !(v is Object) ==> v.get(name) is None,
{
    if let JsonView::Object(entries) = v {
        lemma_position(entries, name);
        if let Some(i) = position(entries, name) {
            assert(entries[i] == (name, entries[i].1));
        }
    }
}

/// A text, a number and a list are read where they stand, and are missed where something else
/// stands.
pub proof fn law_members_are_read_as_they_are(v: JsonView, name: Seq<char>, default: Seq<char>)
    ensures
        v.get_or_null(name) == match v.get(name) {
            Some(x) => x,
            None => JsonView::Null,
        },
        match v.get(name) {
            Some(JsonView::Text(s)) => v.get_text(name) == Some(s) && v.get_text_or(name, default)
                == s,
            _ => v.get_text(name) is None && v.get_text_or(name, default) == default,
        },
        match v.get(name) {
            Some(JsonView::Number(NumberView { whole: Some(n), .. })) => v.get_count(name) == n,
            _ => v.get_count(name) == 0,
        },
        match v.get(name) {
            Some(JsonView::Array(items)) => v.get_list(name) == items,
            _ => v.get_list(name) == Seq::<JsonView>::empty(),
        },
{
}

/// The model of a value holds all of the value: every item of a list in its place, and every
/// member of an object in its place with its name.
pub proof fn law_models_hold_all(v: Json, i: int)
    ensures
        v is Null <==> v@ is Null,
        v matches Json::Bool(b) ==> v@ == JsonView::Bool(b),
        v matches Json::Number(n) ==> v@ == JsonView::Number(number_view(n)),
        v matches Json::Text(s) ==> v@ == JsonView::Text(s@),
        v matches Json::Array(items) ==> {
            &&& v@ is Array && v@->Array_0.len() == items@.len()
            &&& 0 <= i < items@.len() ==> v@->Array_0[i] == items@[i]@
        },
        v matches Json::Object(entries) ==> {
            &&& v@ is Object && v@->Object_0.len() == entries@.len()
            &&& 0 <= i < entries@.len() ==> v@->Object_0[i] == (
                entries@[i].0@,
                entries@[i].1@,
            )
        },
{
}

} // verus!
