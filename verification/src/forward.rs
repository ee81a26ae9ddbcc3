//! Requests to the verdict service, and what its responses are turned into.
use crate::apart::can_be_read;
use crate::canonical::{
    canonical_text, keys_ascend, law_canonical_is_sorted_compact, law_canonical_keys_ascend,
};
use crate::cli::{Config, ConfigView, Mode};
use crate::codec::{parsed_bytes, parsed_text, value_from_str, MAX_DEPTH};
use crate::json::{entry_views, lemma_position_at, Json, JsonView};
use crate::redact::{
    fully_redacted, hash_otlp_body, law_no_content_leaves_undigested, redacted, shows_digests_only,
    PayloadError,
};
use crate::text::{law_slashes_at_the_end_go, trim_end_slashes, without_end_slashes};
use vstd::prelude::*;
use vstd::utf8::encode_utf8;

verus! {

/// How long an upload may take, in seconds.
pub const UPLOAD_TIMEOUT_SECS: u64 = 45;

/// An HTTP POST that is to be made.
#[derive(Debug)]
pub struct Request {
    pub url: String,
    /// The `Authorization` header, where there is one.
    pub authorization: Option<String>,
    pub content_type: String,
    pub body: Vec<u8>,
    pub timeout_secs: u64,
}

/// The model of a [`Request`].
pub struct RequestView {
    pub url: Seq<char>,
    pub authorization: Option<Seq<char>>,
    pub content_type: Seq<char>,
    pub body: Seq<u8>,
    pub timeout_secs: u64,
}

impl View for Request {
    type V = RequestView;

    open spec fn view(&self) -> RequestView {
        RequestView {
            url: self.url@,
            authorization: match self.authorization {
                Some(a) => Some(a@),
                None => None,
            },
            content_type: self.content_type@,
            body: self.body@,
            timeout_secs: self.timeout_secs,
        }
    }
}

/// What is sent in place of a payload: in hash mode the payload with its content digested. An
/// error is the parser's words on a payload that is no JSON.
pub open spec fn outgoing(config: ConfigView, body: Seq<u8>) -> Result<Seq<u8>, Seq<char>> {
    match config.mode {
        Mode::Plain => Ok(body),
        Mode::Hash => match parsed_bytes(body) {
            Ok(payload) => Ok(encode_utf8(canonical_text(redacted(payload, config.salt)))),
            Err(words) => Err(words),
        },
    }
}

/// The upload of some bytes.
pub open spec fn upload(config: ConfigView, body: Seq<u8>) -> RequestView {
    RequestView {
        url: without_end_slashes(config.upstream) + "/v1/receipts"@,
        authorization: Some("Bearer "@ + config.api_key),
        content_type: "application/json"@,
        body,
        timeout_secs: UPLOAD_TIMEOUT_SECS,
    }
}

/// The request that uploads a payload.
pub fn upload_request(config: &Config, body: Vec<u8>) -> (r: Result<Request, PayloadError>)
    ensures
        match outgoing(config@, body@) {
            Ok(bytes) => r is Ok && r->Ok_0@ == upload(config@, bytes),
            Err(words) => r is Err && r->Err_0->NotJson_0@ == words,
        },
        config.mode == Mode::Hash && r is Ok ==> shows_digests_only(
            redacted(parsed_bytes(body@)->Ok_0, config.salt@),
        ),
        config.mode == Mode::Plain ==> r is Ok && r->Ok_0.body@ == body@,
        config.mode == Mode::Hash ==> (r is Ok <==> parsed_bytes(body@) is Ok),
        config.mode == Mode::Hash && r is Ok ==> r->Ok_0.body@ == encode_utf8(
            canonical_text(redacted(parsed_bytes(body@)->Ok_0, config.salt@)),
        ),
        r matches Ok(request) ==> request.url@ == without_end_slashes(config.upstream@)
            + "/v1/receipts"@ && request.authorization is Some && request.authorization->0@
            == "Bearer "@ + config.api_key@,
{
    let bytes = match config.mode {
        Mode::Plain => body,
        Mode::Hash => match hash_otlp_body(body.as_slice(), config.salt.as_str()) {
            Ok(bytes) => bytes,
            Err(e) => {
                return Err(e);
            },
        },
    };
    Ok(upload_of(config, bytes))
}

/// The request that uploads some bytes as they are.
pub fn upload_of(config: &Config, bytes: Vec<u8>) -> (r: Request)
    ensures
        r@ == upload(config@, bytes@),
{
    let mut url = trim_end_slashes(config.upstream.as_str());
    url.append("/v1/receipts");
    let mut authorization = "Bearer ".to_owned();
    authorization.append(config.api_key.as_str());
    Request {
        url,
        authorization: Some(authorization),
        content_type: "application/json".to_owned(),
        body: bytes,
        timeout_secs: UPLOAD_TIMEOUT_SECS,
    }
}

/// In hash mode nothing is sent but the canonical text of the redacted payload, in which every
/// content and identity attribute whose value is an object that holds something has a digest for
/// its value. An attribute whose value is no object, such as a bare string, is sent as it is.
pub proof fn law_hashed_uploads_show_no_content(config: ConfigView, body: Seq<u8>)
    requires
        config.mode == Mode::Hash,
    ensures
        outgoing(config, body) matches Ok(bytes) ==> {
            let sent = redacted(parsed_bytes(body)->Ok_0, config.salt);
            &&& parsed_bytes(body) is Ok
            &&& bytes == encode_utf8(canonical_text(sent))
            &&& fully_redacted(sent, config.salt)
        },
{
    if let Ok(payload) = parsed_bytes(body) {
        law_no_content_leaves_undigested(payload, config.salt);
    }
}

/// What the verdict service answered.
#[derive(Debug)]
pub struct ForwardResult {
    pub status: u16,
    pub body: String,
}

/// Whether a status says that a request succeeded.
pub open spec fn succeeded(status: u16) -> bool {
    200 <= status < 300
}

/// Whether a status says that a request succeeded.
pub fn is_success(status: u16) -> (r: bool)
    ensures
        r == succeeded(status),
        r == (200 <= status < 300),
{
    200 <= status && status < 300
}

/// A text that is no JSON, wrapped up as JSON.
pub open spec fn raw_value(body: Seq<char>) -> JsonView {
    JsonView::Object(seq![("raw"@, JsonView::Text(body))])
}

/// The verdict in a response, which is what its body holds if that is JSON, and the body itself
/// wrapped up otherwise.
pub open spec fn verdict_of(parsed: Option<JsonView>, body: Seq<char>) -> JsonView {
    match parsed {
        Some(v) => v,
        None => raw_value(body),
    }
}

/// What a response body holds, if it is JSON.
pub fn parse_body(body: &str) -> (r: Option<Json>)
    ensures
        match r {
            Some(v) => parsed_text(body@) == Some(v@) && v@.wf(),
            None => parsed_text(body@) is None,
        },
        // The canonical text of a value is read back as that value, its members sorted.
        forall|v: JsonView|
            body@ == #[trigger] canonical_text(v) && v.wf() && can_be_read(
                v.sorted(),
                MAX_DEPTH as nat,
            ) ==> r is Some && r->0@ == v.sorted(),
{
    proof {
        assert forall|v: JsonView| #[trigger] canonical_text(v) == v.sorted().compact() && (v.wf()
            ==> keys_ascend(v.sorted())) by {
            law_canonical_is_sorted_compact(v);
            if v.wf() {
                law_canonical_keys_ascend(v);
            }
        }
    }
    match value_from_str(body) {
        Some(v) => Some(Json::from_value(v)),
        None => None,
    }
}

/// The model of a value that may be missing.
pub open spec fn opt_view(v: Option<Json>) -> Option<JsonView> {
    match v {
        Some(j) => Some(j@),
        None => None,
    }
}

/// The verdict for a response whose body has been parsed.
pub fn verdict_from(parsed: Option<Json>, body: &str) -> (r: Json)
    ensures
        r@ == verdict_of(opt_view(parsed), body@),
        (parsed matches Some(v) ==> v@.wf()) ==> r@.wf(),
{
    match parsed {
        Some(v) => v,
        None => {
            let mut entries: Vec<(String, Json)> = Vec::new();
            entries.push(("raw".to_owned(), Json::Text(body.to_owned())));
            assert(entry_views(entries@) =~= seq![("raw"@, JsonView::Text(body@))]);
            assert(JsonView::Text(body@).wf());
            Json::Object(entries)
        },
    }
}

/// The verdict that a response body holds.
pub fn parse_verdict(body: &str) -> (r: Json)
    ensures
        r@ == verdict_of(parsed_text(body@), body@),
        r@.wf(),
{
    verdict_from(parse_body(body), body)
}

/// The status under which a failed upload is reported to the collector: a rejection as it came,
/// so that the collector drops the payload, and everything else as a bad gateway, so that it
/// tries again.
pub open spec fn failure_status(status: u16) -> u16 {
    if 400 <= status < 500 {
        status
    } else {
        502
    }
}

/// The status under which a failed upload is reported to the collector.
pub fn failure_code(status: u16) -> (r: u16)
    ensures
        r == failure_status(status),
        r == if 400 <= status < 500 {
            status
        } else {
            502
        },
{
    if 400 <= status && status < 500 {
        status
    } else {
        502
    }
}

/// The answer to a collector: the verdict where the upload succeeded, and otherwise a status
/// and the body of the response.
pub fn answer(result: ForwardResult) -> (r: Result<Json, (u16, String)>)
    ensures
        match r {
            Ok(v) => {
                &&& succeeded(result.status)
                &&& v@ == verdict_of(parsed_text(result.body@), result.body@)
                &&& v@.wf()
            },
            Err((status, body)) => {
                &&& !succeeded(result.status)
                &&& status == failure_status(result.status)
                &&& body@ == result.body@
            },
        },
        r is Ok <==> 200 <= result.status < 300,
        400 <= result.status < 500 ==> r is Err && r->Err_0.0 == result.status,
        result.status < 200 || 300 <= result.status < 400 || 500 <= result.status ==> r is Err
            && r->Err_0.0 == 502,
        r is Err ==> r->Err_0.1@ == result.body@,
{
    if is_success(result.status) {
        Ok(parse_verdict(result.body.as_str()))
    } else {
        Err((failure_code(result.status), result.body))
    }
}

/// Why a payload was not sent, in words.
pub fn unsent(words: &str) -> (r: String)
    ensures
        r@ == "send: "@ + words@,
{
    let mut text = "send: ".to_owned();
    text.append(words);
    text
}

/// The answer to a collector whose payload could not be sent on.
pub fn answer_unsent(reason: &str) -> (r: (u16, String))
    ensures
        r.0 == 502,
        r.1@ == "forward: "@ + reason@,
{
    let mut text = "forward: ".to_owned();
    text.append(reason);
    (502, text)
}

/// In plain mode a payload is sent as it is, byte for byte, JSON or not.
pub proof fn law_plain_payloads_are_sent_as_they_are(config: ConfigView, body: Seq<u8>)
    requires
        config.mode == Mode::Plain,
    ensures
        outgoing(config, body) == Ok::<Seq<u8>, Seq<char>>(body),
{
}

/// In hash mode a payload is sent exactly if it is JSON, and the words on why it is not are passed
/// on.
pub proof fn law_hashed_payloads_are_json(config: ConfigView, body: Seq<u8>)
    requires
        config.mode == Mode::Hash,
    ensures
        outgoing(config, body) is Ok <==> parsed_bytes(body) is Ok,
        parsed_bytes(body) matches Err(words) ==> outgoing(config, body) == Err::<
            Seq<u8>,
            Seq<char>,
        >(words),
{
}

/// An upload goes to the upstream with any slashes at its end dropped, carries the whole key and
/// all bytes, and depends on nothing else in the configuration.
pub proof fn law_uploads_carry_key_and_bytes(
    config: ConfigView,
    base: Seq<char>,
    slashes: nat,
    bytes: Seq<u8>,
)
    requires
        base.len() > 0 ==> base.last() != '/',
        config.upstream == base + Seq::new(slashes, |i: int| '/'),
    ensures
        upload(config, bytes).url == base + "/v1/receipts"@,
        upload(config, bytes).authorization == Some("Bearer "@ + config.api_key),
        upload(config, bytes).content_type == "application/json"@,
        upload(config, bytes).body == bytes,
        upload(config, bytes).timeout_secs == 45,
{
    law_slashes_at_the_end_go(base, slashes);
}

/// A response is the verdict where it is JSON, and stands under `raw`, in full, where it is not.
pub proof fn law_no_response_is_lost(parsed: JsonView, body: Seq<char>)
    ensures
        verdict_of(Some(parsed), body) == parsed,
        verdict_of(None, body).get("raw"@) == Some(JsonView::Text(body)),
        verdict_of(None, body) is Object && verdict_of(None, body)->Object_0.len() == 1,
{
    let entries = seq![("raw"@, JsonView::Text(body))];
    lemma_position_at(entries, "raw"@, 0);
}

/// The model of a request holds all of it.
pub proof fn law_models_of_requests_hold_all(request: Request)
    ensures
        request@.url == request.url@,
        request@.authorization is Some <==> request.authorization is Some,
        request.authorization is Some ==> request@.authorization->0 == request.authorization->0@,
        request@.content_type == request.content_type@,
        request@.body == request.body@,
        request@.timeout_secs == request.timeout_secs,
{
}

} // verus!
