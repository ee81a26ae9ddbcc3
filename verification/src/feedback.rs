//! The summaries of verdicts that are shared, and what is left to do once a verdict has come.
use crate::canonical::{canonical_bytes, canonical_text};
use crate::cli::{Config, ConfigView};
use crate::codec::parsed_text;
use crate::forward::{
    is_success, parse_verdict, succeeded, verdict_of, ForwardResult, Request, RequestView,
};
use crate::json::{
    entry_views, item_views, lemma_get_wf, lemma_position_at, Json, JsonView,
};
use crate::paths::{derive_report_path, is_report_path};
use crate::report::{is_stamp, page, render_verdict_html};
use vstd::prelude::*;
use vstd::utf8::encode_utf8;

verus! {

/// How long sharing a summary may take, in seconds.
pub const FEEDBACK_TIMEOUT_SECS: u64 = 10;

/// What is shared of one verdict.
pub open spec fn summary_item(verdict: JsonView) -> JsonView {
    JsonView::Object(
        seq![
            ("binding_reason"@, verdict.get_or_null("binding_reason"@)),
            ("risk"@, verdict.get_or_null("risk"@)),
            ("verdict"@, verdict.get_or_null("verdict"@)),
        ],
    )
}

/// What is shared of a list of verdicts.
pub open spec fn summary_items(verdicts: Seq<JsonView>) -> Seq<JsonView> {
    Seq::new(verdicts.len(), |i: int| summary_item(verdicts[i]))
}

/// What is shared of a response: three counts, and of each verdict its colour, risk and reason.
pub open spec fn summary_value(verdict: JsonView) -> JsonView {
    JsonView::Object(
        seq![
            ("accepted"@, verdict.get_or_null("accepted"@)),
            ("receipts_ingested"@, verdict.get_or_null("receipts_ingested"@)),
            ("red_verdicts"@, verdict.get_or_null("red_verdicts"@)),
            ("verdicts"@, JsonView::Array(summary_items(verdict.get_list("verdicts"@)))),
        ],
    )
}

/// The summary with whom it concerns, where it comes from and what made it.
pub open spec fn envelope(source: Seq<char>, verdict: JsonView, version: Seq<char>) -> JsonView {
    JsonView::Object(
        seq![
            ("binary_version"@, JsonView::Text(version)),
            ("source"@, JsonView::Text(source)),
            ("tenant_id"@, verdict.get_or_null("tenant_id"@)),
            ("verdict_summary"@, summary_value(verdict)),
        ],
    )
}

/// The request that shares a summary.
pub open spec fn share(config: ConfigView, source: Seq<char>, verdict: JsonView) -> RequestView {
    RequestView {
        url: config.feedback_url,
        authorization: None,
        content_type: "application/json"@,
        body: encode_utf8(canonical_text(envelope(source, verdict, config.binary_version))),
        timeout_secs: FEEDBACK_TIMEOUT_SECS,
    }
}

/// Names that the proofs tell apart.
proof fn lemma_names()
    ensures
        "binding_reason"@.len() == 14,
        "risk"@.len() == 4,
        "verdict"@.len() == 7,
        "accepted"@.len() == 8,
        "receipts_ingested"@.len() == 17,
        "red_verdicts"@.len() == 12,
        "verdicts"@.len() == 8,
        "accepted"@ != "verdicts"@,
        "binary_version"@.len() == 14,
        "source"@.len() == 6,
        "tenant_id"@.len() == 9,
        "verdict_summary"@.len() == 15,
{
    reveal_strlit("binding_reason");
    reveal_strlit("risk");
    reveal_strlit("verdict");
    reveal_strlit("accepted");
    reveal_strlit("receipts_ingested");
    reveal_strlit("red_verdicts");
    reveal_strlit("verdicts");
    reveal_strlit("binary_version");
    reveal_strlit("source");
    reveal_strlit("tenant_id");
    reveal_strlit("verdict_summary");
    assert("accepted"@[0] != "verdicts"@[0]);
}

fn summarize_item(verdict: &Json) -> (r: Json)
    requires
        verdict@.wf(),
    ensures
        r@ == summary_item(verdict@),
        r@.wf(),
{
    proof {
        lemma_names();
        lemma_get_wf(verdict@, "binding_reason"@);
        lemma_get_wf(verdict@, "risk"@);
        lemma_get_wf(verdict@, "verdict"@);
        assert(JsonView::Null.wf());
    }
    let mut entries: Vec<(String, Json)> = Vec::new();
    entries.push(("binding_reason".to_owned(), verdict.get_or_null("binding_reason")));
    entries.push(("risk".to_owned(), verdict.get_or_null("risk")));
    entries.push(("verdict".to_owned(), verdict.get_or_null("verdict")));
    assert(entry_views(entries@) =~= summary_item(verdict@)->Object_0);
    Json::Object(entries)
}

/// What is shared of a response.
pub fn feedback_summary(verdict: &Json) -> (r: Json)
    requires
        verdict@.wf(),
    ensures
        r@ == summary_value(verdict@),
        r@.wf(),
        r@.get("accepted"@) == Some(verdict@.get_or_null("accepted"@)),
        r@.get("receipts_ingested"@) == Some(verdict@.get_or_null("receipts_ingested"@)),
        r@.get("red_verdicts"@) == Some(verdict@.get_or_null("red_verdicts"@)),
        r@.get_list("verdicts"@).len() == verdict@.get_list("verdicts"@).len(),
        forall|i: int|
            0 <= i < r@.get_list("verdicts"@).len() ==> alike_in_item(
                #[trigger] r@.get_list("verdicts"@)[i],
                verdict@.get_list("verdicts"@)[i],
            ),
{
    proof {
        lemma_names();
        lemma_get_wf(verdict@, "accepted"@);
        lemma_get_wf(verdict@, "receipts_ingested"@);
        lemma_get_wf(verdict@, "red_verdicts"@);
        lemma_get_wf(verdict@, "verdicts"@);
        assert(JsonView::Null.wf());
    }
    let ghost views = verdict@.get_list("verdicts"@);
    let mut items: Vec<Json> = Vec::new();
    if let Some(verdicts) = verdict.get_list("verdicts") {
        for i in 0..verdicts.len()
            invariant
                views == item_views(verdicts@),
                forall|k: int| 0 <= k < views.len() ==> (#[trigger] views[k]).wf(),
                items@.len() == i,
                forall|k: int|
                    0 <= k < i ==> (#[trigger] items@[k])@ == summary_item(views[k])
                        && items@[k]@.wf(),
        {
            assert(views[i as int] == verdicts@[i as int]@);
            items.push(summarize_item(&verdicts[i]));
        }
    }
    assert(item_views(items@) =~= summary_items(views));
    let mut entries: Vec<(String, Json)> = Vec::new();
    entries.push(("accepted".to_owned(), verdict.get_or_null("accepted")));
    entries.push(("receipts_ingested".to_owned(), verdict.get_or_null("receipts_ingested")));
    entries.push(("red_verdicts".to_owned(), verdict.get_or_null("red_verdicts")));
    entries.push(("verdicts".to_owned(), Json::Array(items)));
    assert(entry_views(entries@) =~= summary_value(verdict@)->Object_0);
    assert(JsonView::Array(item_views(items@)).wf());
    proof {
        law_counts_are_shared_as_they_are(verdict@);
        assert forall|i: int| 0 <= i < views.len() implies alike_in_item(
            #[trigger] summary_value(verdict@).get_list("verdicts"@)[i],
            views[i],
        ) by {
            law_every_verdict_is_shared(verdict@, i);
        }
        law_every_verdict_is_shared(verdict@, 0);
    }
    Json::Object(entries)
}

/// The request that shares a summary of a verdict.
pub fn feedback_request(config: &Config, source_label: &str, verdict: &Json) -> (r: Request)
    requires
        verdict@.wf(),
    ensures
        r@ == share(config@, source_label@, verdict@),
        r.url@ == config.feedback_url@,
        r.authorization is None,
        r.body@ == encode_utf8(
            canonical_text(envelope(source_label@, verdict@, config.binary_version@)),
        ),
{
    proof {
        lemma_names();
        lemma_get_wf(verdict@, "tenant_id"@);
        assert(JsonView::Null.wf());
        assert(JsonView::Text(config.binary_version@).wf());
        assert(JsonView::Text(source_label@).wf());
    }
    let mut entries: Vec<(String, Json)> = Vec::new();
    entries.push(("binary_version".to_owned(), Json::Text(config.binary_version.clone())));
    entries.push(("source".to_owned(), Json::Text(source_label.to_owned())));
    entries.push(("tenant_id".to_owned(), verdict.get_or_null("tenant_id")));
    entries.push(("verdict_summary".to_owned(), feedback_summary(verdict)));
    assert(entry_views(entries@) =~= envelope(
        source_label@,
        verdict@,
        config.binary_version@,
    )->Object_0);
    let body = canonical_bytes(Json::Object(entries));
    Request {
        url: config.feedback_url.clone(),
        authorization: None,
        content_type: "application/json".to_owned(),
        body,
        timeout_secs: FEEDBACK_TIMEOUT_SECS,
    }
}

/// What a response to a shared summary means; `shown` is how its status reads.
pub fn check_feedback(status: u16, shown: &str) -> (r: Result<(), String>)
    ensures
        match r {
            Ok(_) => succeeded(status),
            Err(text) => !succeeded(status) && text@ == "feedback POST returned "@ + shown@,
        },
        r is Ok <==> 200 <= status < 300,
{
    if is_success(status) {
        Ok(())
    } else {
        let mut text = "feedback POST returned ".to_owned();
        text.append(shown);
        Err(text)
    }
}

/// A report and where it is to be written.
#[derive(Debug)]
pub struct ReportFile {
    pub path: String,
    pub html: String,
}

/// What is left to do once a verdict has come: first the report, then the sharing.
#[derive(Debug)]
pub struct FollowUp {
    pub report: Option<ReportFile>,
    pub feedback: Option<Request>,
}

/// The stem of the file that a verdict is on, where there are several.
pub open spec fn stem_view(file_stem: Option<&str>) -> Option<Seq<char>> {
    match file_stem {
        Some(s) => Some(s@),
        None => None,
    }
}

impl FollowUp {
    /// Whether this is what a configuration asks for once a verdict has come: a report if a path
    /// for reports is set, and a summary if summaries are shared.
    pub open spec fn follows(
        self,
        config: ConfigView,
        source: Seq<char>,
        verdict: JsonView,
        file_stem: Option<Seq<char>>,
    ) -> bool {
        &&& match config.report {
            Some(path) => {
                &&& self.report is Some
                &&& is_report_path(path, file_stem, self.report->0.path@)
                &&& exists|now: Seq<char>| #[trigger]
                    is_stamp(now) && self.report->0.html@ == page(
                        source,
                        verdict,
                        config.binary_version,
                        now,
                        verdict.sorted().pretty(),
                    )
            },
            None => self.report is None,
        }
        &&& if config.feedback {
            self.feedback is Some && self.feedback->0@ == share(config, source, verdict)
        } else {
            self.feedback is None
        }
    }
}

/// What is left to do once a verdict has come.
pub fn follow_up_on(
    config: &Config,
    source_label: &str,
    verdict: &Json,
    file_stem: Option<&str>,
) -> (r: FollowUp)
    requires
        verdict@.wf(),
    ensures
        r.follows(config@, source_label@, verdict@, stem_view(file_stem)),
        r.report is Some <==> config.report is Some,
        config.report is Some && file_stem is None ==> r.report->0.path@ == config.report->0@,
        config.report is Some && file_stem is Some ==> is_report_path(
            config.report->0@,
            Some(file_stem->0@),
            r.report->0.path@,
        ),
        r.feedback is Some <==> config.feedback,
        r.report matches Some(report) ==> exists|now: Seq<char>| #[trigger]
            is_stamp(now) && report.html@ == page(
                source_label@,
                verdict@,
                config.binary_version@,
                now,
                verdict@.sorted().pretty(),
            ),
        r.feedback matches Some(request) ==> request@ == share(config@, source_label@, verdict@),
{
    let report = match &config.report {
        Some(path) => Some(
            ReportFile {
                path: derive_report_path(path.as_str(), file_stem),
                html: render_verdict_html(source_label, verdict, config.binary_version.as_str()),
            },
        ),
        None => None,
    };
    let feedback = if config.feedback {
        Some(feedback_request(config, source_label, verdict))
    } else {
        None
    };
    FollowUp { report, feedback }
}

/// What is left to do once a response has come.
pub fn follow_up(
    config: &Config,
    source_label: &str,
    result: &ForwardResult,
    file_stem: Option<&str>,
) -> (r: FollowUp)
    ensures
        r.follows(
            config@,
            source_label@,
            verdict_of(parsed_text(result.body@), result.body@),
            stem_view(file_stem),
        ),
        r.report is Some <==> config.report is Some,
        config.report is Some && file_stem is None ==> r.report->0.path@ == config.report->0@,
        config.report is Some && file_stem is Some ==> is_report_path(
            config.report->0@,
            Some(file_stem->0@),
            r.report->0.path@,
        ),
        r.feedback is Some <==> config.feedback,
        r.report matches Some(report) ==> exists|now: Seq<char>| #[trigger]
            is_stamp(now) && report.html@ == page(
                source_label@,
                verdict_of(parsed_text(result.body@), result.body@),
                config.binary_version@,
                now,
                verdict_of(parsed_text(result.body@), result.body@).sorted().pretty(),
            ),
        r.feedback matches Some(request) ==> request@ == share(
            config@,
            source_label@,
            verdict_of(parsed_text(result.body@), result.body@),
        ),
{
    let verdict = parse_verdict(result.body.as_str());
    follow_up_on(config, source_label, &verdict, file_stem)
}

/// Two verdicts agree in what a summary may show.
pub open spec fn alike_in_item(a: JsonView, b: JsonView) -> bool {
    &&& a.get_or_null("verdict"@) == b.get_or_null("verdict"@)
    &&& a.get_or_null("risk"@) == b.get_or_null("risk"@)
    &&& a.get_or_null("binding_reason"@) == b.get_or_null("binding_reason"@)
}

/// Two responses agree in what a summary may show: whom they concern, the counts, and the
/// colour, risk and reason of each verdict.
pub open spec fn alike_in_summary(a: JsonView, b: JsonView) -> bool {
    let x = a.get_list("verdicts"@);
    let y = b.get_list("verdicts"@);
    &&& a.get_or_null("tenant_id"@) == b.get_or_null("tenant_id"@)
    &&& a.get_or_null("accepted"@) == b.get_or_null("accepted"@)
    &&& a.get_or_null("receipts_ingested"@) == b.get_or_null("receipts_ingested"@)
    &&& a.get_or_null("red_verdicts"@) == b.get_or_null("red_verdicts"@)
    &&& x.len() == y.len()
    &&& forall|i: int| 0 <= i < x.len() ==> alike_in_item(#[trigger] x[i], y[i])
}

/// Nothing but the summary is shared: responses that agree in what a summary may show lead to
/// the same request, whatever resources, correlation keys, explanations and findings they hold.
pub proof fn law_only_the_summary_is_shared(
    config: ConfigView,
    source: Seq<char>,
    a: JsonView,
    b: JsonView,
)
    requires
        alike_in_summary(a, b),
    ensures
        share(config, source, a) == share(config, source, b),
{
    let x = a.get_list("verdicts"@);
    let y = b.get_list("verdicts"@);
    assert forall|i: int| 0 <= i < x.len() implies summary_item(x[i]) == summary_item(y[i]) by {
        assert(alike_in_item(x[i], y[i]));
    }
    assert(summary_items(x) =~= summary_items(y));
}

/// No secret is shared: the request is the same whatever the key and the salt are.
pub proof fn law_no_secret_is_shared(
    a: ConfigView,
    b: ConfigView,
    source: Seq<char>,
    verdict: JsonView,
)
    requires
        a.feedback_url == b.feedback_url,
        a.binary_version == b.binary_version,
    ensures
        share(a, source, verdict) == share(b, source, verdict),
{
}

/// The counts are shared as they are, null where they are missing, and nothing stands beside them
/// but the list of verdicts.
pub proof fn law_counts_are_shared_as_they_are(response: JsonView)
    ensures
        summary_value(response).get("accepted"@) == Some(response.get_or_null("accepted"@)),
        summary_value(response).get("receipts_ingested"@) == Some(
            response.get_or_null("receipts_ingested"@),
        ),
        summary_value(response).get("red_verdicts"@) == Some(
            response.get_or_null("red_verdicts"@),
        ),
        summary_value(response).get("verdicts"@) is Some,
        summary_value(response).get("verdicts"@)->0 is Array,
        summary_value(response) is Object && summary_value(response)->Object_0.len() == 4,
{
    lemma_names();
    let entries = summary_value(response)->Object_0;
    lemma_position_at(entries, "accepted"@, 0);
    lemma_position_at(entries, "receipts_ingested"@, 1);
    lemma_position_at(entries, "red_verdicts"@, 2);
    lemma_position_at(entries, "verdicts"@, 3);
}

/// Every verdict of a response is shared, in its place, whatever the counts say: the summary has
/// one item for each, which agrees with it in colour, risk and reason and holds nothing else.
pub proof fn law_every_verdict_is_shared(response: JsonView, i: int)
    ensures
        ({
            let verdicts = response.get_list("verdicts"@);
            let items = summary_value(response).get_list("verdicts"@);
            &&& items.len() == verdicts.len()
            &&& 0 <= i < verdicts.len() ==> {
                &&& alike_in_item(items[i], verdicts[i])
                &&& items[i].get("verdict"@) == Some(verdicts[i].get_or_null("verdict"@))
                &&& items[i].get("risk"@) == Some(verdicts[i].get_or_null("risk"@))
                &&& items[i].get("binding_reason"@) == Some(
                    verdicts[i].get_or_null("binding_reason"@),
                )
                &&& items[i] is Object && items[i]->Object_0.len() == 3
            }
        }),
{
    lemma_names();
    let entries = summary_value(response)->Object_0;
    lemma_position_at(entries, "verdicts"@, 3);
    let verdicts = response.get_list("verdicts"@);
    if 0 <= i < verdicts.len() {
        let members = summary_item(verdicts[i])->Object_0;
        lemma_position_at(members, "binding_reason"@, 0);
        lemma_position_at(members, "risk"@, 1);
        lemma_position_at(members, "verdict"@, 2);
    }
}

/// A summary tells what it is a summary of: responses with the same envelope agree in all that a
/// summary may show, and the sources and versions are the same.
pub proof fn law_summaries_tell_responses_apart(
    a: JsonView,
    b: JsonView,
    from: Seq<char>,
    to: Seq<char>,
    v: Seq<char>,
    w: Seq<char>,
)
    requires
        envelope(from, a, v) == envelope(to, b, w),
    ensures
        alike_in_summary(a, b),
        from == to,
        v == w,
{
    law_envelopes_name_their_origin(from, a, v);
    law_envelopes_name_their_origin(to, b, w);
    law_counts_are_shared_as_they_are(a);
    law_counts_are_shared_as_they_are(b);
    law_every_verdict_is_shared(a, 0);
    law_every_verdict_is_shared(b, 0);
    let x = a.get_list("verdicts"@);
    let y = b.get_list("verdicts"@);
    assert forall|i: int| 0 <= i < x.len() implies alike_in_item(#[trigger] x[i], y[i]) by {
        law_every_verdict_is_shared(a, i);
        law_every_verdict_is_shared(b, i);
    }
}

/// An envelope names the version, the source and the tenant in full, holds the summary of the
/// response, and nothing else.
pub proof fn law_envelopes_name_their_origin(
    source: Seq<char>,
    response: JsonView,
    version: Seq<char>,
)
    ensures
        ({
            let shared = envelope(source, response, version);
            &&& shared.get("binary_version"@) == Some(JsonView::Text(version))
            &&& shared.get("source"@) == Some(JsonView::Text(source))
            &&& shared.get("tenant_id"@) == Some(response.get_or_null("tenant_id"@))
            &&& shared.get("verdict_summary"@) == Some(summary_value(response))
            &&& shared is Object && shared->Object_0.len() == 4
        }),
{
    lemma_names();
    let entries = envelope(source, response, version)->Object_0;
    reveal_strlit("binary_version");
    reveal_strlit("verdict_summary");
    lemma_position_at(entries, "binary_version"@, 0);
    lemma_position_at(entries, "source"@, 1);
    lemma_position_at(entries, "tenant_id"@, 2);
    lemma_position_at(entries, "verdict_summary"@, 3);
}

/// A summary goes to the address for summaries as it stands, without a key, with ten seconds to
/// get there.
pub proof fn law_summaries_go_to_their_address(
    config: ConfigView,
    source: Seq<char>,
    response: JsonView,
)
    ensures
        share(config, source, response).url == config.feedback_url,
        share(config, source, response).authorization is None,
        share(config, source, response).content_type == "application/json"@,
        share(config, source, response).timeout_secs == 10,
        share(config, source, response).body == encode_utf8(
            canonical_text(envelope(source, response, config.binary_version)),
        ),
{
}

} // verus!
