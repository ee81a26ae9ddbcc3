//! Replacing content by its digest in OpenTelemetry payloads.
//!
//! An attribute is an object `{"key": name, "value": {...}}`. The value of an attribute whose
//! name is a content or an identity field is replaced, wherever in the payload the attribute
//! stands, by the digest of its content. Everything else passes through unchanged.
use crate::apart::can_be_read;
use crate::canonical::{
    canonical_bytes, canonical_json, canonical_text, keys_ascend, law_canonical_ignores_order,
    law_canonical_is_sorted_compact, law_canonical_keys_ascend, lemma_onto, same_content,
};
use crate::codec::{error_message, parsed_bytes, value_from_slice, MAX_DEPTH};
use crate::digest::{digest_text, hmac_content, is_digest};
use crate::json::{
    entry_views, field, find, item_views, lemma_position, lemma_position_at, position, Json,
    JsonView,
};
use crate::text::same_text;
use vstd::prelude::*;
use vstd::utf8::encode_utf8;

verus! {

/// The fields that hold content.
pub open spec fn is_content_field(name: Seq<char>) -> bool {
    ||| name == "gen_ai.input.messages"@
    ||| name == "gen_ai.output.messages"@
    ||| name == "gen_ai.tool.call.arguments"@
    ||| name == "gen_ai.tool.call.result"@
    ||| name == "gen_ai.system_instructions"@
}

/// The fields that hold an identity.
pub open spec fn is_identity_field(name: Seq<char>) -> bool {
    ||| name == "enduser.id"@
    ||| name == "user.id"@
    ||| name == "gen_ai.user.id"@
}

/// Where the value stands that is to be replaced: the entries are those of an attribute whose
/// name is a content or an identity field and whose value is an object that holds something.
pub open spec fn redaction_target(entries: Seq<(Seq<char>, JsonView)>) -> Option<int> {
    match field(entries, "key"@) {
        Some(JsonView::Text(name)) if is_content_field(name) || is_identity_field(name) =>
        match field(entries, "value"@) {
            Some(JsonView::Object(inner)) if inner.len() > 0 => position(entries, "value"@),
            _ => None,
        },
        _ => None,
    }
}

/// What is digested of a value: the text under `stringValue`, or else the canonical text of the
/// whole value.
pub open spec fn content_text(value: JsonView) -> Seq<char> {
    match value.get_text("stringValue"@) {
        Some(s) => s,
        None => canonical_text(value),
    }
}

/// The value that stands for a digest.
pub open spec fn digest_value(digest: Seq<char>) -> JsonView {
    JsonView::Object(seq![("stringValue"@, JsonView::Text("hmac-sha256:"@ + digest))])
}

/// The entries of one object, with the value of a content or an identity attribute replaced.
pub open spec fn transformed(entries: Seq<(Seq<char>, JsonView)>, salt: Seq<char>) -> Seq<
    (Seq<char>, JsonView),
> {
    match redaction_target(entries) {
        Some(t) => entries.update(
            t,
            (entries[t].0, digest_value(digest_text(content_text(entries[t].1), salt))),
        ),
        None => entries,
    }
}

/// A payload with the value of every content and identity attribute replaced.
pub open spec fn redacted(v: JsonView, salt: Seq<char>) -> JsonView
    decreases v,
{
    match v {
        JsonView::Array(items) => JsonView::Array(redacted_items(items, salt)),
        JsonView::Object(entries) => JsonView::Object(redacted_entries(entries, salt)),
        other => other,
    }
}

/// The values of a list, each redacted.
pub open spec fn redacted_items(items: Seq<JsonView>, salt: Seq<char>) -> Seq<JsonView>
    decreases items,
{
    Seq::new(
        items.len(),
        |i: int|
            if 0 <= i < items.len() {
                redacted(items[i], salt)
            } else {
                JsonView::Null
            },
    )
}

/// The entries of an object: the value to be replaced by its digest, every other value redacted.
pub open spec fn redacted_entries(entries: Seq<(Seq<char>, JsonView)>, salt: Seq<char>) -> Seq<
    (Seq<char>, JsonView),
>
    decreases entries,
{
    Seq::new(
        entries.len(),
        |i: int|
            if 0 <= i < entries.len() {
                if redaction_target(entries) == Some(i) {
                    transformed(entries, salt)[i]
                } else {
                    (entries[i].0, redacted(entries[i].1, salt))
                }
            } else {
                (Seq::empty(), JsonView::Null)
            },
    )
}

/// Whether a value stands for something that has the form of a digest, and holds nothing else.
pub open spec fn is_digest_value(value: JsonView) -> bool {
    exists|digest: Seq<char>| value == #[trigger] digest_value(digest) && is_digest(digest)
}

/// Every content and identity attribute in the tree whose value is an object that holds something
/// holds a digest: its value is `{"stringValue": "hmac-sha256:..."}` with 64 hexadecimal digits.
pub open spec fn shows_digests_only(v: JsonView) -> bool
    decreases v,
{
    match v {
        JsonView::Array(items) => forall|i: int|
            0 <= i < items.len() ==> shows_digests_only(#[trigger] items[i]),
        JsonView::Object(entries) => {
            &&& redaction_target(entries) matches Some(t) ==> is_digest_value(entries[t].1)
            &&& forall|i: int|
                0 <= i < entries.len() ==> shows_digests_only((#[trigger] entries[i]).1)
        },
        _ => true,
    }
}

/// Whether an attribute's name is a content or an identity field.
pub fn is_redacted_field(name: &str) -> (r: bool)
    ensures
        r == (is_content_field(name@) || is_identity_field(name@)),
{
    same_text(name, "gen_ai.input.messages") || same_text(name, "gen_ai.output.messages")
        || same_text(name, "gen_ai.tool.call.arguments") || same_text(
        name,
        "gen_ai.tool.call.result",
    ) || same_text(name, "gen_ai.system_instructions") || same_text(name, "enduser.id")
        || same_text(name, "user.id") || same_text(name, "gen_ai.user.id")
}

/// Finds the value to be replaced among the entries of an object.
pub fn find_target(entries: &Vec<(String, Json)>) -> (r: Option<usize>)
    ensures
        match r {
            Some(t) => {
                &&& t < entries@.len()
                &&& redaction_target(entry_views(entries@)) == Some(t as int)
            },
            None => redaction_target(entry_views(entries@)) is None,
        },
{
    let k = match find(entries, "key") {
        Some(k) => k,
        None => {
            return None;
        },
    };
    match &entries[k].1 {
        Json::Text(name) => {
            if !is_redacted_field(name.as_str()) {
                return None;
            }
        },
        _ => {
            return None;
        },
    }
    let t = match find(entries, "value") {
        Some(t) => t,
        None => {
            return None;
        },
    };
    match &entries[t].1 {
        Json::Object(inner) => {
            assert(entry_views(entries@)[t as int].1 == JsonView::Object(entry_views(inner@)));
            if inner.len() > 0 {
                Some(t)
            } else {
                None
            }
        },
        _ => None,
    }
}

/// What is digested of a value.
pub fn content_of(value: &Json) -> (r: String)
    ensures
        r@ == content_text(value@),
        value@.get("stringValue"@) matches Some(JsonView::Text(s)) ==> r@ == s,
{
    match value.get_text("stringValue") {
        Some(s) => s.to_owned(),
        None => canonical_json(value),
    }
}

/// The value that stands for a digest.
pub fn digest_json(digest: &str) -> (r: Json)
    ensures
        r@ == digest_value(digest@),
{
    let mut text = "hmac-sha256:".to_owned();
    text.append(digest);
    let mut entries: Vec<(String, Json)> = Vec::new();
    entries.push(("stringValue".to_owned(), Json::Text(text)));
    assert(entry_views(entries@) =~= seq![
        ("stringValue"@, JsonView::Text("hmac-sha256:"@ + digest@)),
    ]);
    Json::Object(entries)
}

/// Replaces the value of a content or an identity attribute by its digest; returns where it
/// stands. Of any other object nothing changes.
pub fn transform_attributes(entries: &mut Vec<(String, Json)>, salt: &str) -> (r: Option<usize>)
    ensures
        entry_views(final(entries)@) == transformed(entry_views(old(entries)@), salt@),
        final(entries)@.len() == old(entries)@.len(),
        forall|i: int|
            0 <= i < old(entries)@.len() && r != Some(i as usize) ==> #[trigger] final(entries)@[i]
                == old(entries)@[i],
        match r {
            Some(t) => {
                &&& t < old(entries)@.len()
                &&& redaction_target(entry_views(old(entries)@)) == Some(t as int)
            },
            None => redaction_target(entry_views(old(entries)@)) is None,
        },
        r matches Some(t) ==> is_digest(
            digest_text(content_text(entry_views(old(entries)@)[t as int].1), salt@),
        ),
        r matches Some(t) ==> is_digest_value(final(entries)@[t as int].1@),
{
    let ghost before = entries@;
    match find_target(entries) {
        Some(t) => {
            let content = content_of(&entries[t].1);
            let digest = hmac_content(content.as_str(), salt);
            let name = entries[t].0.clone();
            entries.set(t, (name, digest_json(digest.as_str())));
            assert(entry_views(entries@) =~= transformed(entry_views(before), salt@));
            assert(entries@[t as int].1@ == digest_value(digest@));
            Some(t)
        },
        None => None,
    }
}

/// Replaces the value of every content and identity attribute of a payload by its digest.
pub fn walk(v: &mut Json, salt: &str)
    ensures
        final(v)@ == redacted(old(v)@, salt@),
        fully_redacted(final(v)@, salt@),
        shows_digests_only(final(v)@),
    decreases *old(v),
{
    let ghost start = *v;
    proof {
        law_no_content_leaves_undigested(start@, salt@);
    }
    match v {
        Json::Array(items) => {
            let n = items.len();
            let ghost before = items@;
            assert(start->Array_0@ == before);
            let mut i: usize = 0;
            #[verifier::loop_isolation(false)]
            while i < n
                invariant
                    i <= n,
                    items@.len() == n,
                    before.len() == n,
                    forall|k: int| i <= k < n ==> items@[k] == #[trigger] before[k],
                    forall|k: int|
                        0 <= k < i ==> items@[k]@ == redacted((#[trigger] before[k])@, salt@)
                            && shows_digests_only(items@[k]@),
                decreases n - i,
            {
                assert(decreases_to!(start => start->Array_0@[i as int]));
                walk(&mut items[i], salt);
                i = i + 1;
            }
            assert(item_views(items@) =~= redacted_items(item_views(before), salt@));
            assert forall|k: int| 0 <= k < n implies shows_digests_only(
                #[trigger] item_views(items@)[k],
            ) by {
                assert(items@[k]@ == redacted(before[k]@, salt@));
            }
        },
        Json::Object(entries) => {
            let n = entries.len();
            let ghost before = entries@;
            assert(start->Object_0@ == before);
            let replaced = transform_attributes(entries, salt);
            let ghost changed = entries@;
            let mut i: usize = 0;
            #[verifier::loop_isolation(false)]
            while i < n
                invariant
                    i <= n,
                    entries@.len() == n,
                    forall|k: int| i <= k < n ==> entries@[k] == #[trigger] changed[k],
                    forall|k: int|
                        0 <= k < i ==> {
                            let now = entries@[k];
                            &&& now.0@ == (#[trigger] changed[k]).0@
                            &&& now.1@ == if replaced == Some(k as usize) {
                                changed[k].1@
                            } else {
                                redacted(before[k].1@, salt@)
                            }
                            &&& shows_digests_only(now.1@)
                        },
                decreases n - i,
            {
                // A digest holds no attribute.
                if replaced != Some(i) {
                    assert(changed[i as int] == before[i as int]);
                    assert(decreases_to!(start => start->Object_0@[i as int]));
                    assert(decreases_to!(before[i as int] => before[i as int].1));
                    walk(&mut entries[i].1, salt);
                } else {
                    proof {
                        lemma_digests_show_digests_only(changed[i as int].1@);
                    }
                }
                i = i + 1;
            }
            proof {
                let views = entry_views(before);
                assert(entry_views(changed) == transformed(views, salt@));
                assert(entry_views(entries@) =~= redacted_entries(views, salt@)) by {
                    assert forall|k: int| 0 <= k < n implies #[trigger] entry_views(entries@)[k]
                        == redacted_entries(views, salt@)[k] by {
                        assert(changed[k].0@ == entry_views(changed)[k].0);
                        assert(before[k].0@ == views[k].0);
                    }
                }
                lemma_target_kept(views, salt@);
                assert forall|k: int| 0 <= k < n implies shows_digests_only(
                    (#[trigger] entry_views(entries@)[k]).1,
                ) by {
                    assert(entries@[k].0@ == changed[k].0@);
                }
                if replaced is Some {
                    let t = replaced->0 as int;
                    assert(entries@[t].1@ == changed[t].1@);
                }
            }
        },
        _ => {},
    }
}

/// Why a payload cannot be redacted.
#[derive(Debug)]
pub enum PayloadError {
    /// The payload is no JSON; the parser's words on it.
    NotJson(String),
}

impl PayloadError {
    /// What is wrong with the payload, in words.
    pub open spec fn message_text(&self) -> Seq<char> {
        match self {
            PayloadError::NotJson(words) => "parse OTLP JSON: "@ + words@,
        }
    }

    /// What is wrong with the payload, in words.
    pub fn message(&self) -> (r: String)
        ensures
            r@ == self.message_text(),
    {
        match self {
            PayloadError::NotJson(words) => {
                let mut text = "parse OTLP JSON: ".to_owned();
                text.append(words.as_str());
                text
            },
        }
    }
}

/// Parses a payload.
pub fn parse_payload(body: &[u8]) -> (r: Result<Json, PayloadError>)
    ensures
        match r {
            Ok(v) => parsed_bytes(body@) == Ok::<JsonView, Seq<char>>(v@) && v@.wf(),
            Err(PayloadError::NotJson(words)) => parsed_bytes(body@) == Err::<JsonView, Seq<char>>(
                words@,
            ),
        },
        // A payload that was written out is read back as it was, its members sorted.
        forall|v: JsonView|
            body@ == encode_utf8(#[trigger] canonical_text(v)) && v.wf() && can_be_read(
                v.sorted(),
                MAX_DEPTH as nat,
            ) ==> r is Ok && r->Ok_0@ == v.sorted(),
{
    proof {
        assert forall|v: JsonView| #[trigger] canonical_text(v) == v.sorted().compact() && (v.wf()
            ==> keys_ascend(v.sorted())) by {
            law_canonical_is_sorted_compact(v);
            if v.wf() {
                law_canonical_keys_ascend(v);
            }
        }
    }
    match value_from_slice(body) {
        Ok(v) => Ok(Json::from_value(v)),
        Err(e) => Err(PayloadError::NotJson(error_message(&e))),
    }
}

/// Redacts a parsed payload and writes it out.
pub fn redact_payload(payload: Json, salt: &str) -> (r: Vec<u8>)
    requires
        payload@.wf(),
    ensures
        r@ == encode_utf8(canonical_text(redacted(payload@, salt@))),
        redacted(payload@, salt@).wf(),
        fully_redacted(redacted(payload@, salt@), salt@),
        shows_digests_only(redacted(payload@, salt@)),
{
    let mut payload = payload;
    proof {
        law_redaction_keeps_wf(payload@, salt@);
    }
    walk(&mut payload, salt);
    canonical_bytes(payload)
}

/// Parses a payload, replaces the value of every content and identity attribute by its digest,
/// and writes the payload out again.
pub fn hash_otlp_body(body: &[u8], salt: &str) -> (r: Result<Vec<u8>, PayloadError>)
    ensures
        match parsed_bytes(body@) {
            Ok(payload) => {
                &&& r is Ok
                &&& r->Ok_0@ == encode_utf8(canonical_text(redacted(payload, salt@)))
                &&& redacted(payload, salt@).wf()
                &&& fully_redacted(redacted(payload, salt@), salt@)
                &&& shows_digests_only(redacted(payload, salt@))
            },
            Err(words) => r is Err && r->Err_0->NotJson_0@ == words,
        },
{
    let payload = parse_payload(body)?;
    Ok(redact_payload(payload, salt))
}

/// Names that the proofs tell apart.
proof fn lemma_names()
    ensures
        "key"@ != "value"@,
        "key"@ != "stringValue"@,
{
    reveal_strlit("key");
    reveal_strlit("value");
    reveal_strlit("stringValue");
    assert("key"@.len() == 3);
    assert("value"@.len() == 5);
    assert("stringValue"@.len() == 11);
}

/// Redaction keeps the keys of an object, their number and their order.
pub proof fn law_redaction_keeps_keys(entries: Seq<(Seq<char>, JsonView)>, salt: Seq<char>)
    ensures
        redacted_entries(entries, salt).len() == entries.len(),
        forall|i: int|
            0 <= i < entries.len() ==> (#[trigger] redacted_entries(entries, salt)[i]).0
                == entries[i].0,
        forall|name: Seq<char>| #[trigger]
            position(redacted_entries(entries, salt), name) == position(entries, name),
{
    let after = redacted_entries(entries, salt);
    assert forall|i: int| 0 <= i < entries.len() implies (#[trigger] after[i]).0
        == entries[i].0 by {
        if redaction_target(entries) == Some(i) {
            lemma_position(entries, "value"@);
        }
    }
    assert forall|name: Seq<char>| #[trigger] position(after, name) == position(entries, name) by {
        lemma_position(entries, name);
        lemma_position(after, name);
        match position(entries, name) {
            Some(i) => {
                assert forall|k: int| 0 <= k < i implies (#[trigger] after[k]).0 != name by {
                    assert(entries[k].0 != name);
                }
                lemma_position_at(after, name, i);
            },
            None => {
                if position(after, name) is Some {
                    let k = position(after, name)->0;
                    assert(entries[k].0 != name);
                }
            },
        }
    }
}

/// Redaction neither makes nor removes attributes to be redacted.
proof fn lemma_target_kept(entries: Seq<(Seq<char>, JsonView)>, salt: Seq<char>)
    ensures
        redaction_target(redacted_entries(entries, salt)) == redaction_target(entries),
{
    let after = redacted_entries(entries, salt);
    law_redaction_keeps_keys(entries, salt);
    lemma_names();
    lemma_position(entries, "key"@);
    lemma_position(entries, "value"@);
    assert(position(after, "key"@) == position(entries, "key"@));
    assert(position(after, "value"@) == position(entries, "value"@));
    if position(entries, "key"@) is Some {
        let k = position(entries, "key"@)->0;
        assert(redaction_target(entries) != Some(k));
        assert(after[k].1 == redacted(entries[k].1, salt));
    }
    if position(entries, "value"@) is Some {
        let t = position(entries, "value"@)->0;
        if redaction_target(entries) != Some(t) {
            assert(after[t].1 == redacted(entries[t].1, salt));
        }
    }
}

/// The entries of every object of a redacted payload still have different keys.
pub proof fn law_redaction_keeps_wf(v: JsonView, salt: Seq<char>)
    requires
        v.wf(),
    ensures
        redacted(v, salt).wf(),
    decreases v,
{
    match v {
        JsonView::Array(items) => {
            let after = redacted_items(items, salt);
            assert forall|i: int| 0 <= i < after.len() implies (#[trigger] after[i]).wf() by {
                assert(items[i].wf());
                law_redaction_keeps_wf(items[i], salt);
            }
        },
        JsonView::Object(entries) => {
            let after = redacted_entries(entries, salt);
            law_redaction_keeps_keys(entries, salt);
            assert forall|i: int, j: int| 0 <= i < j < after.len() implies (#[trigger] after[i]).0
                != (#[trigger] after[j]).0 by {
                assert(entries[i].0 != entries[j].0);
            }
            assert forall|i: int| 0 <= i < after.len() implies (#[trigger] after[i]).1.wf() by {
                assert(entries[i].1.wf());
                if redaction_target(entries) == Some(i) {
                    lemma_position(entries, "value"@);
                    let text = "hmac-sha256:"@ + digest_text(content_text(entries[i].1), salt);
                    assert(JsonView::Text(text).wf());
                } else {
                    law_redaction_keeps_wf(entries[i].1, salt);
                }
            }
        },
        _ => {},
    }
}

/// Every content and identity attribute in the tree whose value is an object that holds something
/// has a digest under `salt` for its value.
pub open spec fn fully_redacted(v: JsonView, salt: Seq<char>) -> bool
    decreases v,
{
    match v {
        JsonView::Array(items) => forall|i: int|
            0 <= i < items.len() ==> fully_redacted(#[trigger] items[i], salt),
        JsonView::Object(entries) => {
            &&& match redaction_target(entries) {
                Some(t) => exists|content: Seq<char>|
                    entries[t].1 == digest_value(#[trigger] digest_text(content, salt)),
                None => true,
            }
            &&& forall|i: int|
                0 <= i < entries.len() ==> fully_redacted((#[trigger] entries[i]).1, salt)
        },
        _ => true,
    }
}

/// The value of a content or an identity attribute becomes the digest of its content.
pub proof fn law_content_becomes_its_digest(
    entries: Seq<(Seq<char>, JsonView)>,
    salt: Seq<char>,
)
    requires
        redaction_target(entries) is Some,
    ensures
        ({
            let t = redaction_target(entries)->0;
            &&& 0 <= t < entries.len()
            &&& entries[t].0 == "value"@
            &&& redacted_entries(entries, salt)[t] == (
                "value"@,
                digest_value(digest_text(content_text(entries[t].1), salt)),
            )
        }),
{
    lemma_position(entries, "value"@);
}

/// No content leaves undigested: in a redacted payload, at every depth, every attribute whose
/// name is a content or an identity field and whose value is an object that holds something has
/// the digest of a content for its value, and nothing else.
pub proof fn law_no_content_leaves_undigested(v: JsonView, salt: Seq<char>)
    ensures
        fully_redacted(redacted(v, salt), salt),
    decreases v,
{
    match v {
        JsonView::Array(items) => {
            let after = redacted_items(items, salt);
            assert forall|i: int| 0 <= i < after.len() implies fully_redacted(
                #[trigger] after[i],
                salt,
            ) by {
                law_no_content_leaves_undigested(items[i], salt);
            }
        },
        JsonView::Object(entries) => {
            let after = redacted_entries(entries, salt);
            lemma_target_kept(entries, salt);
            lemma_position(entries, "value"@);
            assert forall|i: int| 0 <= i < after.len() implies fully_redacted(
                (#[trigger] after[i]).1,
                salt,
            ) by {
                if redaction_target(entries) == Some(i) {
                    lemma_digest_has_no_attribute(
                        digest_text(content_text(entries[i].1), salt),
                        salt,
                    );
                } else {
                    law_no_content_leaves_undigested(entries[i].1, salt);
                }
            }
            if redaction_target(entries) is Some {
                let t = redaction_target(entries)->0;
                let content = content_text(entries[t].1);
                assert(after[t].1 == digest_value(digest_text(content, salt)));
            }
        },
        _ => {},
    }
}

/// A digest holds no attribute.
proof fn lemma_digests_show_digests_only(value: JsonView)
    requires
        is_digest_value(value),
    ensures
        shows_digests_only(value),
{
    let digest = choose|digest: Seq<char>|
        value == #[trigger] digest_value(digest) && is_digest(digest);
    lemma_names();
    let entries = seq![("stringValue"@, JsonView::Text("hmac-sha256:"@ + digest))];
    lemma_position(entries, "key"@);
    assert(redaction_target(entries) is None);
    assert(shows_digests_only(entries[0].1));
}

proof fn lemma_digest_has_no_attribute(digest: Seq<char>, salt: Seq<char>)
    ensures
        fully_redacted(digest_value(digest), salt),
{
    lemma_names();
    let entries = seq![("stringValue"@, JsonView::Text("hmac-sha256:"@ + digest))];
    lemma_position(entries, "key"@);
    assert(redaction_target(entries) is None);
    assert(fully_redacted(entries[0].1, salt));
}

/// No object in the tree is a content or an identity attribute with something in its value.
pub open spec fn nothing_to_redact(v: JsonView) -> bool
    decreases v,
{
    match v {
        JsonView::Array(items) => forall|i: int|
            0 <= i < items.len() ==> nothing_to_redact(#[trigger] items[i]),
        JsonView::Object(entries) => {
            &&& redaction_target(entries) is None
            &&& forall|i: int|
                0 <= i < entries.len() ==> nothing_to_redact((#[trigger] entries[i]).1)
        },
        _ => true,
    }
}

/// What holds no content and no identity passes through unchanged.
pub proof fn law_the_rest_passes_through(v: JsonView, salt: Seq<char>)
    requires
        nothing_to_redact(v),
    ensures
        redacted(v, salt) == v,
    decreases v,
{
    match v {
        JsonView::Array(items) => {
            assert forall|i: int| 0 <= i < items.len() implies redacted(#[trigger] items[i], salt)
                == items[i] by {
                law_the_rest_passes_through(items[i], salt);
            }
            assert(redacted_items(items, salt) =~= items);
        },
        JsonView::Object(entries) => {
            assert forall|i: int| 0 <= i < entries.len() implies redacted(
                (#[trigger] entries[i]).1,
                salt,
            ) == entries[i].1 by {
                law_the_rest_passes_through(entries[i].1, salt);
            }
            assert(redacted_entries(entries, salt) =~= entries);
        },
        _ => {},
    }
}

/// Of an object, each entry but the value to be replaced is redacted for itself; an entry in
/// which there is nothing to redact stays as it is.
pub proof fn law_other_entries_pass_through(
    entries: Seq<(Seq<char>, JsonView)>,
    i: int,
    salt: Seq<char>,
)
    requires
        0 <= i < entries.len(),
        redaction_target(entries) != Some(i),
        nothing_to_redact(entries[i].1),
    ensures
        redacted_entries(entries, salt)[i] == entries[i],
{
    law_the_rest_passes_through(entries[i].1, salt);
}

/// Of the value of a content or an identity attribute nothing but its digest shows: another
/// value with the same digest in its place gives the same result.
pub proof fn law_only_the_digest_shows(
    entries: Seq<(Seq<char>, JsonView)>,
    other: JsonView,
    salt: Seq<char>,
)
    requires
        redaction_target(entries) is Some,
        other is Object,
        other->Object_0.len() > 0,
        digest_text(content_text(other), salt) == digest_text(
            content_text(entries[redaction_target(entries)->0].1),
            salt,
        ),
    ensures
        ({
            let t = redaction_target(entries)->0;
            redacted_entries(entries.update(t, (entries[t].0, other)), salt) == redacted_entries(
                entries,
                salt,
            )
        }),
{
    let t = redaction_target(entries)->0;
    let changed = entries.update(t, (entries[t].0, other));
    lemma_names();
    lemma_position(entries, "key"@);
    lemma_position(entries, "value"@);
    let k = position(entries, "key"@)->0;
    assert(k != t);
    assert forall|m: int| 0 <= m < k implies (#[trigger] changed[m]).0 != "key"@ by {
        assert(entries[m].0 != "key"@);
    }
    assert forall|m: int| 0 <= m < t implies (#[trigger] changed[m]).0 != "value"@ by {
        assert(entries[m].0 != "value"@);
    }
    lemma_position_at(changed, "key"@, k);
    lemma_position_at(changed, "value"@, t);
    assert(redaction_target(changed) == Some(t));
    assert(redacted_entries(changed, salt) =~= redacted_entries(entries, salt));
}

/// Values of the same content have the same digest, whatever the order of their members.
pub proof fn law_digest_ignores_order(a: JsonView, b: JsonView, salt: Seq<char>)
    requires
        a.wf(),
        b.wf(),
        same_content(a, b),
    ensures
        digest_text(content_text(a), salt) == digest_text(content_text(b), salt),
{
    let name = "stringValue"@;
    law_canonical_ignores_order(a, b);
    if let (JsonView::Object(x), JsonView::Object(y)) = (a, b) {
        lemma_position(x, name);
        lemma_position(y, name);
        if position(x, name) is Some {
            let i = position(x, name)->0;
            assert(x[i].0 == name);
            assert(same_content(x[i].1, field(y, name)->0));
        } else if position(y, name) is Some {
            let k = position(y, name)->0;
            assert forall|i: int| 0 <= i < x.len() implies position(
                y,
                (#[trigger] x[i]).0,
            ) is Some by {
                assert(field(y, x[i].0) is Some);
            }
            lemma_onto(x, y, k);
            let i = choose|i: int| 0 <= i < x.len() && (#[trigger] x[i]).0 == y[k].0;
            assert(x[i].0 == name);
        }
    }
}

/// What is digested of a value with a string is exactly that string, of whatever length, and what
/// is digested of any other value is its whole canonical text.
pub proof fn law_the_whole_content_is_digested(value: JsonView)
    ensures
        value.get("stringValue"@) matches Some(JsonView::Text(s)) ==> content_text(value) == s,
        !(value.get("stringValue"@) matches Some(JsonView::Text(_))) ==> content_text(value)
            == canonical_text(value),
{
}

/// A value that holds nothing but a string is digested as that string.
pub proof fn law_strings_are_digested_as_they_are(s: Seq<char>)
    ensures
        content_text(JsonView::Object(seq![("stringValue"@, JsonView::Text(s))])) == s,
{
    let entries = seq![("stringValue"@, JsonView::Text(s))];
    lemma_position_at(entries, "stringValue"@, 0);
}

/// Two strings with the same digested text are the same string.
pub proof fn law_digested_text_tells_strings_apart(a: JsonView, b: JsonView)
    requires
        a.get("stringValue"@) is Some,
        a.get("stringValue"@)->0 is Text,
        b.get("stringValue"@) is Some,
        b.get("stringValue"@)->0 is Text,
    ensures
        content_text(a) == content_text(b) <==> a.get("stringValue"@) == b.get("stringValue"@),
{
}

/// The attributes that are redacted are those of eight names.
pub proof fn law_these_fields_are_redacted(name: Seq<char>)
    ensures
        (is_content_field(name) || is_identity_field(name)) <==> (name == "gen_ai.input.messages"@
            || name == "gen_ai.output.messages"@ || name == "gen_ai.tool.call.arguments"@ || name
            == "gen_ai.tool.call.result"@ || name == "gen_ai.system_instructions"@ || name
            == "enduser.id"@ || name == "user.id"@ || name == "gen_ai.user.id"@),
{
}

/// An object is redacted exactly if it has the name of a content or an identity field for its
/// key, and something in an object for its value; and what is replaced is that value.
pub proof fn law_what_is_replaced(entries: Seq<(Seq<char>, JsonView)>)
    ensures
        ({
            let v = JsonView::Object(entries);
            let named = match v.get("key"@) {
                Some(JsonView::Text(name)) => is_content_field(name) || is_identity_field(name),
                _ => false,
            };
            let holds = match v.get("value"@) {
                Some(JsonView::Object(inner)) => inner.len() > 0,
                _ => false,
            };
            &&& redaction_target(entries) is Some <==> named && holds
            &&& redaction_target(entries) matches Some(t) ==> 0 <= t < entries.len() && entries[t].0
                == "value"@ && Some(entries[t].1) == v.get("value"@)
        }),
{
    lemma_position(entries, "value"@);
}

/// A list is redacted item by item, whatever its length.
pub proof fn law_lists_are_redacted_item_by_item(items: Seq<JsonView>, i: int, salt: Seq<char>)
    requires
        0 <= i < items.len(),
    ensures
        redacted(JsonView::Array(items), salt) is Array,
        redacted(JsonView::Array(items), salt)->Array_0.len() == items.len(),
        redacted(JsonView::Array(items), salt)->Array_0[i] == redacted(items[i], salt),
{
}

/// An object is redacted member by member, but for the value that is replaced.
pub proof fn law_objects_are_redacted_member_by_member(
    entries: Seq<(Seq<char>, JsonView)>,
    i: int,
    salt: Seq<char>,
)
    requires
        0 <= i < entries.len(),
        redaction_target(entries) != Some(i),
    ensures
        redacted(JsonView::Object(entries), salt) is Object,
        redacted(JsonView::Object(entries), salt)->Object_0.len() == entries.len(),
        redacted(JsonView::Object(entries), salt)->Object_0[i] == (
            entries[i].0,
            redacted(entries[i].1, salt),
        ),
{
}

/// The value of a redacted attribute is the digest of its content, marked as such.
pub proof fn law_digests_are_marked(entries: Seq<(Seq<char>, JsonView)>, salt: Seq<char>)
    requires
        redaction_target(entries) is Some,
    ensures
        redacted(JsonView::Object(entries), salt)->Object_0[redaction_target(entries)->0].1
            == JsonView::Object(
            seq![
                (
                    "stringValue"@,
                    JsonView::Text(
                        "hmac-sha256:"@ + digest_text(
                            content_text(entries[redaction_target(entries)->0].1),
                            salt,
                        ),
                    ),
                ),
            ],
        ),
{
    lemma_position(entries, "value"@);
}

/// Null, truth values, numbers and texts stay.
pub proof fn law_scalars_stay(v: JsonView, salt: Seq<char>)
    requires
        !(v is Array),
        !(v is Object),
    ensures
        redacted(v, salt) == v,
{
}

} // verus!
