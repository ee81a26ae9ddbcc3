use provenex_ingest::canonical::canonical_json;
use provenex_ingest::cli::{Config, Mode};
use provenex_ingest::feedback::{
    check_feedback, feedback_request, feedback_summary, follow_up, follow_up_on,
};
use provenex_ingest::forward::{
    answer, answer_unsent, failure_code, is_success, parse_body, parse_verdict, unsent,
    upload_of, upload_request, verdict_from, ForwardResult, Request,
};
use provenex_ingest::json::Json;
use provenex_ingest::report::{
    html_escape, render_page, render_verdict_html, summary_lines, summary_lines_for,
};
use provenex_ingest::text::{to_ascii_lower, trim_end_slashes};
use provenex_ingest::upload::{Job, Step, MAX_ATTEMPTS};

fn json(text: &str) -> Json {
    Json::from_value(serde_json::from_str(text).unwrap())
}

fn config() -> Config {
    Config {
        upstream: "https://up.example//".to_string(),
        api_key: "pvx_trial_1".to_string(),
        salt: "s".to_string(),
        mode: Mode::Plain,
        concurrent: 4,
        report: None,
        feedback: false,
        feedback_url: "https://feedback.example/x".to_string(),
        binary_version: "0.9".to_string(),
    }
}

fn response(status: u16, body: &str) -> ForwardResult {
    ForwardResult {
        status,
        body: body.to_string(),
    }
}

const SAMPLE: &str = r#"{
    "accepted": true,
    "receipts_ingested": 3,
    "red_verdicts": 1,
    "tenant_id": "t-<1>",
    "verdicts": [{
        "verdict": "red",
        "risk": "High",
        "binding_reason": "untrusted->egress",
        "correlation_key": "corr-001",
        "explanation": "reached \"x\" & 'y'"
    }, {}],
    "findings": []
}"#;

#[test]
fn feedback_summary_strips_uris_and_correlation_keys() {
    let verdict = json(
        r#"{
            "accepted": true,
            "receipts_ingested": 3,
            "red_verdicts": 1,
            "tenant_id": "t-1",
            "verdicts": [{
                "verdict": "red",
                "risk": "high",
                "binding_reason": "untrusted->egress",
                "correlation_key": "corr-001",
                "explanation": "external email reached https://attacker.example.com"
            }],
            "findings": [{ "retrieved": [{"uri": "outlook://x"}] }]
        }"#,
    );
    let summary = feedback_summary(&verdict);
    let s = serde_json::to_string(&summary.into_value()).unwrap();
    assert!(s.contains("untrusted->egress"));
    assert!(s.contains("\"red_verdicts\":1"));
    assert!(!s.contains("corr-001"));
    assert!(!s.contains("attacker.example.com"));
    assert!(!s.contains("outlook://x"));
    assert!(!s.contains("findings"));
}

#[test]
fn summaries_hold_null_for_what_is_missing() {
    assert_eq!(
        feedback_summary(&json(SAMPLE)),
        json(
            r#"{"accepted":true,"receipts_ingested":3,"red_verdicts":1,"verdicts":[
                {"binding_reason":"untrusted->egress","risk":"High","verdict":"red"},
                {"binding_reason":null,"risk":null,"verdict":null}]}"#
        )
    );
    let empty =
        json(r#"{"accepted":null,"receipts_ingested":null,"red_verdicts":null,"verdicts":[]}"#);
    assert_eq!(feedback_summary(&json("{}")), empty);
    assert_eq!(feedback_summary(&json("[1]")), empty);
    assert_eq!(feedback_summary(&json(r#"{"verdicts":{}}"#)), empty);
}

#[test]
fn shared_requests_hold_the_summary_and_no_secret() {
    let request = feedback_request(&config(), "a.json", &json(SAMPLE));
    assert_eq!(request.url, "https://feedback.example/x");
    assert_eq!(request.authorization, None);
    assert_eq!(request.content_type, "application/json");
    assert_eq!(request.timeout_secs, 10);
    assert_eq!(
        String::from_utf8(request.body).unwrap(),
        r#"{"binary_version":"0.9","source":"a.json","tenant_id":"t-<1>","verdict_summary":{"accepted":true,"receipts_ingested":3,"red_verdicts":1,"verdicts":[{"binding_reason":"untrusted->egress","risk":"High","verdict":"red"},{"binding_reason":null,"risk":null,"verdict":null}]}}"#
    );
    let other = Config {
        api_key: "pvx_live_2".to_string(),
        salt: "other".to_string(),
        ..config()
    };
    let plain = json(r#"{"tenant_id":"t","verdicts":[{"risk":"low"}]}"#);
    let more = json(r#"{"tenant_id":"t","verdicts":[{"risk":"low","uri":"u"}],"findings":[1]}"#);
    assert_eq!(
        feedback_request(&config(), "a", &plain).body,
        feedback_request(&other, "a", &more).body
    );
}

#[test]
fn feedback_is_taken_or_refused() {
    assert_eq!(check_feedback(200, "200 OK"), Ok(()));
    assert_eq!(check_feedback(299, ""), Ok(()));
    assert_eq!(
        check_feedback(500, "500 Internal Server Error"),
        Err("feedback POST returned 500 Internal Server Error".to_string())
    );
    assert!(check_feedback(199, "").is_err());
    assert!(check_feedback(300, "").is_err());
}

#[test]
fn uploads_carry_the_key_and_the_payload() {
    let request = upload_request(&config(), b"{not json".to_vec()).unwrap();
    assert_eq!(request.url, "https://up.example/v1/receipts");
    assert_eq!(request.authorization.as_deref(), Some("Bearer pvx_trial_1"));
    assert_eq!(request.content_type, "application/json");
    assert_eq!(request.body, b"{not json");
    assert_eq!(request.timeout_secs, 45);
    assert_eq!(upload_of(&config(), vec![1, 2]).body, vec![1, 2]);

    let hashing = Config {
        mode: Mode::Hash,
        ..config()
    };
    let body = br#"{"key":"user.id","value":{"intValue":7}}"#.to_vec();
    assert_eq!(
        String::from_utf8(upload_request(&hashing, body).unwrap().body).unwrap(),
        r#"{"key":"user.id","value":{"stringValue":"hmac-sha256:60695a269b9813465067f39bb6520924b50117f1db34a838c13a01523d7d782f"}}"#
    );
    let e = upload_request(&hashing, b"{not json".to_vec()).unwrap_err();
    assert!(e.message().starts_with("parse OTLP JSON: "));
}

#[test]
fn slashes_at_the_end_are_dropped() {
    assert_eq!(trim_end_slashes("a/b//"), "a/b");
    assert_eq!(trim_end_slashes("///"), "");
    assert_eq!(trim_end_slashes(""), "");
    assert_eq!(trim_end_slashes("/a"), "/a");
}

#[test]
fn responses_that_are_no_json_are_wrapped_up() {
    assert_eq!(parse_verdict("[1, 2]"), json("[1,2]"));
    assert_eq!(parse_verdict("oops"), json(r#"{"raw":"oops"}"#));
    assert_eq!(parse_verdict(""), json(r#"{"raw":""}"#));
    assert_eq!(parse_body("oops"), None);
    assert_eq!(parse_body("null"), Some(Json::Null));
    assert_eq!(verdict_from(Some(Json::Null), "x"), Json::Null);
    assert_eq!(verdict_from(None, "x"), json(r#"{"raw":"x"}"#));
}

#[test]
fn failures_are_passed_on_to_the_collector() {
    assert_eq!(answer(response(200, "{\"a\":1}")), Ok(json(r#"{"a":1}"#)));
    assert_eq!(answer(response(202, "ok")), Ok(json(r#"{"raw":"ok"}"#)));
    for status in [400, 401, 404, 429, 499] {
        assert_eq!(answer(response(status, "{}")), Err((status, "{}".to_string())));
    }
    for status in [100, 199, 300, 301, 399, 500, 503, 999] {
        assert_eq!(answer(response(status, "b")), Err((502, "b".to_string())));
        assert_eq!(failure_code(status), 502);
    }
    assert_eq!(
        answer_unsent(&unsent("refused")),
        (502, "forward: send: refused".to_string())
    );
    assert!(is_success(200) && is_success(299) && !is_success(199) && !is_success(300));
}

#[test]
fn summaries_show_counts_and_up_to_three_verdicts() {
    assert_eq!(
        summary_lines("a.json", &response(200, SAMPLE)),
        vec![
            "  🔴 a.json  status=200 egress=3 red=1".to_string(),
            "       • untrusted->egress / High".to_string(),
            "       • (no binding) / ?".to_string(),
        ]
    );
    assert_eq!(
        summary_lines("a", &response(204, "")),
        vec!["  ✓  a  status=204 egress=0 red=0".to_string()]
    );
    assert_eq!(
        summary_lines("a", &response(500, r#"{"red_verdicts":2,"receipts_ingested":-1}"#)),
        vec!["  ✗  a  status=500 egress=0 red=2".to_string()]
    );
    let many = json(r#"{"red_verdicts":9,"verdicts":[{"risk":"a"},{"risk":"b"},{"risk":"c"},{}]}"#);
    assert_eq!(
        summary_lines_for("l", 200, &many),
        vec![
            "  🔴 l  status=200 egress=0 red=9".to_string(),
            "       • (no binding) / a".to_string(),
            "       • (no binding) / b".to_string(),
            "       • (no binding) / c".to_string(),
        ]
    );
    let clean = json(r#"{"red_verdicts":0,"verdicts":[{"risk":"a"}]}"#);
    assert_eq!(summary_lines_for("l", 200, &clean).len(), 1);
    let odd = json(r#"{"red_verdicts":1.0,"verdicts":[{"risk":"a"}]}"#);
    assert_eq!(
        summary_lines_for("l", 200, &odd),
        vec!["  ✓  l  status=200 egress=0 red=0".to_string()]
    );
}

#[test]
fn special_characters_are_escaped() {
    assert_eq!(
        html_escape("<a href=\"x\">'&amp;'</a>é"),
        "&lt;a href=&quot;x&quot;&gt;&#39;&amp;amp;&#39;&lt;/a&gt;é"
    );
    assert_eq!(html_escape(""), "");
    assert_eq!(html_escape("plain; text"), "plain; text");
    assert_ne!(html_escape("&lt;"), html_escape("<"));
    assert_eq!(to_ascii_lower("HiGH É[@Z"), "high É[@z");
}

fn whole_page(
    headline: &str,
    badge_class: &str,
    badge: &str,
    counts: (u64, u64),
    tenant: &str,
    cards: (usize, &str),
    raw: &str,
    now: &str,
) -> String {
    let (receipts, red) = counts;
    let (n, verdict_cards) = cards;
    format!(
        r#"<!DOCTYPE html>
<html lang="en">
<head>
<meta charset="utf-8" />
<meta name="viewport" content="width=device-width, initial-scale=1" />
<title>Provenex verdict — {headline}</title>
<style>
  body {{ font-family: -apple-system, BlinkMacSystemFont, "Segoe UI", system-ui, sans-serif; max-width: 920px; margin: 2rem auto; padding: 0 1rem; color: #1f1f1f; line-height: 1.55; background: #fafafa; }}
  h1 {{ font-size: 1.7rem; margin: 0 0 .3rem; }}
  h2 {{ font-size: 1.1rem; margin: 2rem 0 .8rem; padding-bottom: .25rem; border-bottom: 1px solid #ddd; color: #444; }}
  .badge {{ display: inline-block; padding: 2px 10px; border-radius: 4px; font-weight: 700; font-size: 0.85rem; letter-spacing: .04em; margin-right: .5rem; }}
  .badge-red {{ background: #d83b3b; color: #fff; }}
  .badge-ok {{ background: #2c9c5e; color: #fff; }}
  .meta {{ color: #666; margin: .25rem 0 1.5rem; font-size: 0.9rem; }}
  .stats {{ display: flex; gap: 1.5rem; padding: 1rem 1.25rem; background: #fff; border: 1px solid #e5e5e5; border-radius: 8px; margin: 1.5rem 0; }}
  .stat {{ flex: 1; }}
  .stat-label {{ font-size: 0.85rem; color: #666; text-transform: uppercase; letter-spacing: .04em; }}
  .stat-value {{ font-size: 1.4rem; font-weight: 700; margin-top: 4px; }}
  .card {{ background: #fff; border: 1px solid #e5e5e5; border-left: 4px solid #d83b3b; border-radius: 6px; padding: 1rem 1.25rem; margin: .75rem 0; }}
  .card-header {{ display: flex; align-items: center; gap: .75rem; margin-bottom: .4rem; }}
  .binding {{ font-weight: 700; font-family: ui-monospace, Menlo, monospace; font-size: 0.95rem; color: #d83b3b; }}
  .risk {{ font-size: 0.75rem; padding: 2px 8px; border-radius: 999px; font-weight: 700; text-transform: uppercase; }}
  .risk-high {{ background: #fee; color: #a00; }}
  .risk-medium {{ background: #fff5d6; color: #9a6800; }}
  .risk-low {{ background: #e6f4ea; color: #2c7a3f; }}
  .risk-unknown {{ background: #eee; color: #555; }}
  .idx {{ margin-left: auto; color: #888; font-family: ui-monospace, Menlo, monospace; font-size: 0.85rem; }}
  .explanation {{ margin: .35rem 0; }}
  .key {{ font-size: 0.85rem; color: #666; margin: .2rem 0 0; }}
  code {{ background: #f0f0f0; padding: 1px 5px; border-radius: 3px; font-size: 0.88em; }}
  pre {{ background: #1f1f1f; color: #e6e6e6; padding: 1rem 1.25rem; border-radius: 6px; overflow-x: auto; font-size: 0.85rem; line-height: 1.45; }}
  details {{ margin: 1rem 0; }}
  details summary {{ cursor: pointer; color: #5560b4; font-weight: 500; padding: .5rem 0; }}
  footer {{ margin-top: 3rem; padding-top: 1rem; border-top: 1px solid #ddd; color: #777; font-size: 0.9rem; }}
  footer a {{ color: #5560b4; }}
  .source-label {{ font-family: ui-monospace, Menlo, monospace; color: #444; font-size: 0.9rem; }}
</style>
</head>
<body>
<header>
  <span class="badge {badge_class}">{badge}</span>
  <h1>{headline}</h1>
  <p class="meta">Source: <span class="source-label">dir/a&amp;b.json</span></p>
</header>

<div class="stats">
  <div class="stat"><div class="stat-label">Egress points evaluated</div><div class="stat-value">{receipts}</div></div>
  <div class="stat"><div class="stat-label">Red verdicts</div><div class="stat-value">{red}</div></div>
  <div class="stat"><div class="stat-label">Tenant</div><div class="stat-value" style="font-family: ui-monospace, Menlo, monospace; font-size: 0.95rem; word-break: break-all;">{tenant}</div></div>
</div>

<h2>Verdicts ({n})</h2>
{verdict_cards}

<h2>Raw response</h2>
<details>
  <summary>Show raw verdict JSON</summary>
  <pre>{raw}</pre>
</details>

<footer>
  <p>Generated by <code>provenex-ingest v0.9</code> on {now}.</p>
  <p>Questions / feedback: <a href="mailto:skulk@provenex.ai">skulk@provenex.ai</a> · <a href="https://provenex.ai">provenex.ai</a></p>
  <p style="margin-top: 1rem; font-size: 0.85rem; color: #888;">
    Each verdict in the response carries an <code>ed25519</code>-signed artifact under the
    <code>trial-2026-06</code> key (retrievable via <code>/v1/verdicts</code>) so the closure
    is verifiable even after this HTML report is forwarded onward.
  </p>
</footer>
</body>
</html>
"#
    )
}

const CARDS: &str = r#"<div class="card">
  <div class="card-header"><span class="binding">untrusted-&gt;egress</span><span class="risk risk-high">High</span><span class="idx">#1</span></div>
  <p class="explanation">reached &quot;x&quot; &amp; &#39;y&#39;</p>
  <p class="key">correlation: <code>corr-001</code></p>
</div>
<div class="card">
  <div class="card-header"><span class="binding">(unclassified)</span><span class="risk risk-?">?</span><span class="idx">#2</span></div>
  <p class="explanation"></p>
  <p class="key">correlation: <code>?</code></p>
</div>
"#;

#[test]
fn pages_show_the_whole_verdict() {
    assert_eq!(
        render_page("dir/a&b.json", &json(SAMPLE), "0.9", "NOW", "<raw>"),
        whole_page(
            "untrusted-&gt;egress",
            "badge-red",
            "RED",
            (3, 1),
            "t-&lt;1&gt;",
            (2, CARDS),
            "&lt;raw&gt;",
            "NOW"
        )
    );
    assert_eq!(
        render_page("dir/a&b.json", &json("{}"), "0.9", "NOW", ""),
        whole_page(
            "No red verdicts; closure walked clean.",
            "badge-ok",
            "OK",
            (0, 0),
            "(unknown)",
            (0, ""),
            "",
            "NOW"
        )
    );
    let bare = json(r#"{"red_verdicts":2,"tenant_id":7}"#);
    assert_eq!(
        render_page("dir/a&b.json", &bare, "0.9", "NOW", ""),
        whole_page(
            "Cross-zone composition detected.",
            "badge-red",
            "RED",
            (0, 2),
            "(unknown)",
            (0, ""),
            "",
            "NOW"
        )
    );
}

#[test]
fn pages_load_nothing() {
    let nasty = r#"</pre><SCRIPT src=x></script><link><img><iframe>"#;
    let verdict = Json::Object(vec![
        ("red_verdicts".to_string(), json("1")),
        ("tenant_id".to_string(), Json::Text(nasty.to_string())),
        (
            "verdicts".to_string(),
            Json::Array(vec![Json::Object(vec![
                ("binding_reason".to_string(), Json::Text(nasty.to_string())),
                ("correlation_key".to_string(), Json::Text(nasty.to_string())),
                ("explanation".to_string(), Json::Text(nasty.to_string())),
                ("risk".to_string(), Json::Text("High".to_string())),
            ])]),
        ),
    ]);
    let page = render_verdict_html(nasty, &verdict, "0.9").to_lowercase();
    for tag in ["<script", "<link", "<img", "<iframe"] {
        assert!(!page.contains(tag), "{tag}");
    }
    assert!(page.contains("&lt;script"));
}

#[test]
fn canonical_texts_are_read_back() {
    let v = json(r#"{"b":[-9223372036854775808,18446744073709551615,0],"a":{"é\n\"":null}}"#);
    assert_eq!(parse_body(&canonical_json(&v)), Some(v));
    // Other keys of the kind are read as they are.
    let v = json(r#"{"$serde_json::private::Number":"1","a":{"$":1,"$serde_json::private::RawValue":2}}"#);
    assert_eq!(parse_body(&canonical_json(&v)), Some(v));
    let deep = |n: usize| "[".repeat(n) + &"]".repeat(n);
    assert_eq!(canonical_json(&parse_body(&deep(127)).unwrap()), deep(127));
    assert_eq!(parse_body(&deep(128)), None);
}

#[test]
fn reports_are_stamped_and_hold_the_verdict_in_full() {
    let html = render_verdict_html("dir/a&b.json", &json(SAMPLE), "0.9");
    let front = "<code>provenex-ingest v0.9</code> on ";
    let at = html.find(front).unwrap() + front.len();
    let now = &html[at..html[at..].find(".</p>").unwrap() + at];
    assert_eq!(now.len(), 20);
    let shape: String = now
        .chars()
        .map(|c| if c.is_ascii_digit() { '0' } else { c })
        .collect();
    assert_eq!(shape, "0000-00-00 00:00 UTC");
    let value: serde_json::Value = serde_json::from_str(SAMPLE).unwrap();
    let raw = serde_json::to_string_pretty(&value).unwrap();
    assert_eq!(
        html,
        whole_page(
            "untrusted-&gt;egress",
            "badge-red",
            "RED",
            (3, 1),
            "t-&lt;1&gt;",
            (2, CARDS),
            &html_escape(&raw),
            now
        )
    );
}

#[test]
fn a_verdict_calls_for_what_the_configuration_asks() {
    let quiet = follow_up(&config(), "a", &response(200, SAMPLE), None);
    assert!(quiet.report.is_none() && quiet.feedback.is_none());

    let all = Config {
        report: Some("out/r.html".to_string()),
        feedback: true,
        ..config()
    };
    let follow = follow_up(&all, "a", &response(200, "no json"), Some("x"));
    let report = follow.report.unwrap();
    assert_eq!(report.path, "out/r-x.html");
    assert!(report.html.contains("{\n  &quot;raw&quot;: &quot;no json&quot;\n}"));
    let body = String::from_utf8(follow.feedback.unwrap().body).unwrap();
    assert!(body.contains("\"source\":\"a\",\"tenant_id\":null"));

    let single = follow_up_on(&all, "a", &json(SAMPLE), None);
    assert_eq!(single.report.unwrap().path, "out/r.html");
}

fn payload() -> Request {
    upload_of(&config(), b"xyz".to_vec())
}

fn one_of_several() -> Job {
    Job {
        source: "d/a.otlp.json".to_string(),
        stem: Some("a".to_string()),
    }
}

fn only_one() -> Job {
    Job {
        source: "a.otlp.json".to_string(),
        stem: None,
    }
}

#[test]
fn a_file_that_was_read_is_sent() {
    let next = only_one().after_reading(&config(), Ok(b"xyz".to_vec()));
    assert!(next.out.is_empty() && next.err.is_empty());
    assert!(matches!(next.step, Step::Send(r, 1) if r.body == b"xyz"));
}

#[test]
fn a_file_that_cannot_be_sent_fails_the_run_only_if_it_is_alone() {
    let next = only_one().after_reading(&config(), Err("gone".to_string()));
    assert!(next.err.is_empty());
    assert!(matches!(next.step, Step::Fail(e) if e == "read a.otlp.json: gone"));
    let next = one_of_several().after_reading(&config(), Err("gone".to_string()));
    assert_eq!(next.err, vec!["  ✗ d/a.otlp.json: read error: gone".to_string()]);
    assert!(matches!(next.step, Step::Done));

    let hashing = Config {
        mode: Mode::Hash,
        ..config()
    };
    let next = only_one().after_reading(&hashing, Ok(b"{".to_vec()));
    assert!(matches!(next.step, Step::Fail(e) if e.starts_with("parse OTLP JSON: ")));
    let next = one_of_several().after_reading(&hashing, Ok(b"{".to_vec()));
    assert!(next.err[0].starts_with("  ✗ d/a.otlp.json: parse OTLP JSON: "));
    assert!(matches!(next.step, Step::Done));

    let next = only_one().after_sending(&config(), payload(), 3, Err("refused".to_string()));
    assert!(matches!(next.step, Step::Fail(e) if e == "send: refused"));
    let next = one_of_several().after_sending(&config(), payload(), 3, Err("refused".to_string()));
    assert_eq!(next.err, vec!["  ✗ d/a.otlp.json: send: refused".to_string()]);
}

/// Takes a payload through attempts with the given outcomes; returns how many were made, and the
/// last step.
fn attempts(job: &Job, outcomes: Vec<Result<ForwardResult, String>>) -> (u32, Step) {
    let mut step = Step::Send(payload(), 1);
    let mut made = 0;
    for outcome in outcomes {
        let (request, attempt) = match step {
            Step::Send(request, attempt) => (request, attempt),
            other => return (made, other),
        };
        made += 1;
        assert_eq!(attempt, made);
        assert_eq!(request.body, b"xyz");
        assert_eq!(request.url, "https://up.example/v1/receipts");
        step = job.after_sending(&config(), request, attempt, outcome).step;
    }
    (made, step)
}

#[test]
fn a_failed_attempt_is_repeated() {
    let failed = || Err("refused".to_string());
    let answered = || Ok(response(200, "{}"));
    let next = only_one().after_sending(&config(), payload(), 1, failed());
    assert!(next.out.is_empty() && next.err.is_empty());
    assert!(matches!(next.step, Step::Send(r, 2) if r.body == b"xyz"));

    for job in [only_one(), one_of_several()] {
        assert!(matches!(attempts(&job, vec![failed(), answered()]), (2, Step::Done)));
        assert!(matches!(
            attempts(&job, vec![failed(), failed(), answered()]),
            (3, Step::Done)
        ));
        assert!(matches!(attempts(&job, vec![answered(), answered()]), (1, Step::Done)));
        // An answer ends the sending, whatever its status.
        let refused = Ok(response(503, ""));
        assert!(matches!(attempts(&job, vec![refused, answered()]), (1, Step::Done)));
    }
}

#[test]
fn an_upload_is_given_up_after_the_last_attempt() {
    assert_eq!(MAX_ATTEMPTS, 3);
    let failed = || Err("refused".to_string());
    let outcomes = vec![failed(), failed(), failed(), Ok(response(200, "{}"))];
    let (made, step) = attempts(&only_one(), outcomes);
    assert_eq!(made, 3);
    assert!(matches!(step, Step::Fail(e) if e == "send: refused"));
    let outcomes = vec![failed(), failed(), failed(), failed()];
    assert!(matches!(attempts(&one_of_several(), outcomes), (3, Step::Done)));
}

#[test]
fn the_report_comes_before_the_sharing() {
    let all = Config {
        report: Some("r.html".to_string()),
        feedback: true,
        ..config()
    };
    let job = one_of_several();
    let next = job.after_sending(&all, payload(), 1, Ok(response(200, SAMPLE)));
    assert_eq!(next.out[0], "  🔴 d/a.otlp.json  status=200 egress=3 red=1");
    let (report, feedback) = match next.step {
        Step::Write(report, feedback) => (report, feedback),
        _ => panic!("no report"),
    };
    assert_eq!(report.path, "r-a.html");
    assert!(feedback.is_some());
    let next = job.after_writing(&report.path, feedback, Ok(()));
    assert_eq!(next.out, vec!["  report written: r-a.html".to_string()]);
    assert!(matches!(next.step, Step::Share(_)));
    let next = job.after_sharing(Ok((204, "204 No Content".to_string())));
    assert!(next.out.is_empty() && next.err.is_empty());
    assert!(matches!(next.step, Step::Done));

    let sharing = Config {
        feedback: true,
        ..config()
    };
    let next = job.after_sending(&sharing, payload(), 1, Ok(response(500, "")));
    assert!(matches!(next.step, Step::Share(_)));
    let next = job.after_sending(&config(), payload(), 1, Ok(response(200, "{}")));
    assert!(matches!(next.step, Step::Done));
    let next = job.after_writing("r", None, Ok(()));
    assert!(matches!(next.step, Step::Done));
}

#[test]
fn trouble_with_reports_and_sharing_is_shown_and_put_up_with() {
    let next = only_one().after_writing("r.html", None, Err("full".to_string()));
    assert_eq!(next.err, vec!["  (postprocessing: write r.html: full)".to_string()]);
    assert!(matches!(next.step, Step::Done));
    let next = one_of_several().after_sharing(Err("timeout".to_string()));
    assert_eq!(
        next.err,
        vec!["  (postprocessing for d/a.otlp.json: feedback POST: timeout)".to_string()]
    );
    let next = only_one().after_sharing(Ok((500, "500 Internal Server Error".to_string())));
    assert_eq!(
        next.err,
        vec![
            "  (postprocessing: feedback POST returned 500 Internal Server Error)".to_string()
        ]
    );
    assert!(matches!(next.step, Step::Done));
}
