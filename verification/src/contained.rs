//! The report page is self-contained: it holds no tag that makes a browser load something.
use crate::json::JsonView;
use crate::page::{
    CARD_BINDING, CARD_CLASS, CARD_END, CARD_EXPLANATION, CARD_INDEX, CARD_KEY, CARD_RISK,
    PAGE_BADGE, PAGE_CARDS, PAGE_EGRESS, PAGE_END, PAGE_HEADLINE, PAGE_RAW, PAGE_RED, PAGE_SOURCE,
    PAGE_STYLE, PAGE_TENANT, PAGE_TIME, PAGE_TITLE, PAGE_VERDICTS, PAGE_VERSION,
};
use crate::report::{
    card, cards, headline, html_text, is_stamp, law_escaped_text_holds_no_markup, page,
};
use crate::text::{ascii_lower, ascii_lower_char, decimal};
use vstd::prelude::*;

verus! {

/// Whether `tag` stands at `i`, in whatever case.
pub open spec fn tag_at(text: Seq<char>, i: int, tag: Seq<char>) -> bool {
    0 <= i && i + tag.len() <= text.len() && ascii_lower(text.subrange(i, i + tag.len())) == tag
}

/// Whether a tag begins at `i` that makes a browser load something.
pub open spec fn loads_at(text: Seq<char>, i: int) -> bool {
    ||| tag_at(text, i, "<script"@)
    ||| tag_at(text, i, "<link"@)
    ||| tag_at(text, i, "<img"@)
    ||| tag_at(text, i, "<iframe"@)
}

/// Whether a text holds nothing that could begin a tag.
pub open spec fn opens_nothing(text: Seq<char>) -> bool {
    forall|i: int| 0 <= i < text.len() ==> #[trigger] text[i] != '<'
}

/// If a tag begins at `i`, its first two letters are there and are those of no tag that loads
/// something.
spec fn is_calm_at(text: Seq<char>, i: int) -> bool {
    text[i] == '<' ==> {
        let c = ascii_lower_char(text[i + 1]);
        let d = ascii_lower_char(text[i + 2]);
        i + 2 < text.len() && c != 'l' && c != 'i' && !(c == 's' && d == 'c')
    }
}

/// No tag in the text loads something, nor begins one at its end.
spec fn is_calm(text: Seq<char>) -> bool {
    forall|i: int| 0 <= i < text.len() ==> #[trigger] is_calm_at(text, i)
}

/// The first `n` characters, one by one, begin no tag that loads something.
spec fn is_calm_to(text: Seq<char>, n: int) -> bool
    decreases n,
{
    n <= 0 || (is_calm_at(text, n - 1) && is_calm_to(text, n - 1))
}

proof fn lemma_calm_to(text: Seq<char>, n: int)
    requires
        is_calm_to(text, n),
    ensures
        forall|i: int| 0 <= i < n ==> #[trigger] is_calm_at(text, i),
    decreases n,
{
    if n > 0 {
        lemma_calm_to(text, n - 1);
    }
}

proof fn lemma_calm_concat(a: Seq<char>, b: Seq<char>)
    requires
        is_calm(a),
        is_calm(b),
    ensures
        is_calm(a + b),
{
    let ab = a + b;
    assert forall|i: int| 0 <= i < ab.len() implies #[trigger] is_calm_at(ab, i) by {
        if i < a.len() {
            assert(is_calm_at(a, i));
        } else {
            assert(is_calm_at(b, i - a.len()));
        }
    }
}

proof fn lemma_closed_is_calm(text: Seq<char>)
    requires
        opens_nothing(text),
    ensures
        is_calm(text),
{
}

proof fn lemma_calm_loads_nothing(text: Seq<char>)
    requires
        is_calm(text),
    ensures
        forall|i: int| !#[trigger] loads_at(text, i),
{
    reveal_strlit("<script");
    reveal_strlit("<link");
    reveal_strlit("<img");
    reveal_strlit("<iframe");
    assert forall|i: int| !#[trigger] loads_at(text, i) by {
        if loads_at(text, i) {
            assert(is_calm_at(text, i));
            let tag = if tag_at(text, i, "<script"@) {
                "<script"@
            } else if tag_at(text, i, "<link"@) {
                "<link"@
            } else if tag_at(text, i, "<img"@) {
                "<img"@
            } else {
                "<iframe"@
            };
            let found = text.subrange(i, i + tag.len());
            assert(ascii_lower(found)[0] == '<');
            assert(ascii_lower(found)[1] == tag[1]);
            assert(ascii_lower(found)[2] == tag[2]);
            assert(found[0] == text[i] && found[1] == text[i + 1] && found[2] == text[i + 2]);
        }
    }
}

proof fn lemma_page_title()
    ensures
        is_calm(PAGE_TITLE@),
{
    reveal_strlit(
        r#"<!DOCTYPE html>
<html lang="en">
<head>
<meta charset="utf-8" />
<meta name="viewport" content="width=device-width, initial-scale=1" />
<title>Provenex verdict — "#,
    );
    let s = PAGE_TITLE@;
    reveal_with_fuel(is_calm_to, 51);
    assert(s.len() == 162);
    assert(is_calm_to(s, 50));
    assert(is_calm_to(s, 100));
    assert(is_calm_to(s, 150));
    assert(is_calm_to(s, 162));
    lemma_calm_to(s, 162);
}

proof fn lemma_page_style()
    ensures
        is_calm(PAGE_STYLE@),
{
    reveal_strlit(
        r#"</title>
<style>
  body { font-family: -apple-system, BlinkMacSystemFont, "Segoe UI", system-ui, sans-serif; max-width: 920px; margin: 2rem auto; padding: 0 1rem; color: #1f1f1f; line-height: 1.55; background: #fafafa; }
  h1 { font-size: 1.7rem; margin: 0 0 .3rem; }
  h2 { font-size: 1.1rem; margin: 2rem 0 .8rem; padding-bottom: .25rem; border-bottom: 1px solid #ddd; color: #444; }
  .badge { display: inline-block; padding: 2px 10px; border-radius: 4px; font-weight: 700; font-size: 0.85rem; letter-spacing: .04em; margin-right: .5rem; }
  .badge-red { background: #d83b3b; color: #fff; }
  .badge-ok { background: #2c9c5e; color: #fff; }
  .meta { color: #666; margin: .25rem 0 1.5rem; font-size: 0.9rem; }
  .stats { display: flex; gap: 1.5rem; padding: 1rem 1.25rem; background: #fff; border: 1px solid #e5e5e5; border-radius: 8px; margin: 1.5rem 0; }
  .stat { flex: 1; }
  .stat-label { font-size: 0.85rem; color: #666; text-transform: uppercase; letter-spacing: .04em; }
  .stat-value { font-size: 1.4rem; font-weight: 700; margin-top: 4px; }
  .card { background: #fff; border: 1px solid #e5e5e5; border-left: 4px solid #d83b3b; border-radius: 6px; padding: 1rem 1.25rem; margin: .75rem 0; }
  .card-header { display: flex; align-items: center; gap: .75rem; margin-bottom: .4rem; }
  .binding { font-weight: 700; font-family: ui-monospace, Menlo, monospace; font-size: 0.95rem; color: #d83b3b; }
  .risk { font-size: 0.75rem; padding: 2px 8px; border-radius: 999px; font-weight: 700; text-transform: uppercase; }
  .risk-high { background: #fee; color: #a00; }
  .risk-medium { background: #fff5d6; color: #9a6800; }
  .risk-low { background: #e6f4ea; color: #2c7a3f; }
  .risk-unknown { background: #eee; color: #555; }
  .idx { margin-left: auto; color: #888; font-family: ui-monospace, Menlo, monospace; font-size: 0.85rem; }
  .explanation { margin: .35rem 0; }
  .key { font-size: 0.85rem; color: #666; margin: .2rem 0 0; }
  code { background: #f0f0f0; padding: 1px 5px; border-radius: 3px; font-size: 0.88em; }
  pre { background: #1f1f1f; color: #e6e6e6; padding: 1rem 1.25rem; border-radius: 6px; overflow-x: auto; font-size: 0.85rem; line-height: 1.45; }
  details { margin: 1rem 0; }
  details summary { cursor: pointer; color: #5560b4; font-weight: 500; padding: .5rem 0; }
  footer { margin-top: 3rem; padding-top: 1rem; border-top: 1px solid #ddd; color: #777; font-size: 0.9rem; }
  footer a { color: #5560b4; }
  .source-label { font-family: ui-monospace, Menlo, monospace; color: #444; font-size: 0.9rem; }
</style>
</head>
<body>
<header>
  <span class="badge "#,
    );
    let s = PAGE_STYLE@;
    reveal_with_fuel(is_calm_to, 51);
    assert(s.len() == 2590);
    assert(is_calm_to(s, 50));
    assert(is_calm_to(s, 100));
    assert(is_calm_to(s, 150));
    assert(is_calm_to(s, 200));
    assert(is_calm_to(s, 250));
    assert(is_calm_to(s, 300));
    assert(is_calm_to(s, 350));
    assert(is_calm_to(s, 400));
    assert(is_calm_to(s, 450));
    assert(is_calm_to(s, 500));
    assert(is_calm_to(s, 550));
    assert(is_calm_to(s, 600));
    assert(is_calm_to(s, 650));
    assert(is_calm_to(s, 700));
    assert(is_calm_to(s, 750));
    assert(is_calm_to(s, 800));
    assert(is_calm_to(s, 850));
    assert(is_calm_to(s, 900));
    assert(is_calm_to(s, 950));
    assert(is_calm_to(s, 1000));
    assert(is_calm_to(s, 1050));
    assert(is_calm_to(s, 1100));
    assert(is_calm_to(s, 1150));
    assert(is_calm_to(s, 1200));
    assert(is_calm_to(s, 1250));
    assert(is_calm_to(s, 1300));
    assert(is_calm_to(s, 1350));
    assert(is_calm_to(s, 1400));
    assert(is_calm_to(s, 1450));
    assert(is_calm_to(s, 1500));
    assert(is_calm_to(s, 1550));
    assert(is_calm_to(s, 1600));
    assert(is_calm_to(s, 1650));
    assert(is_calm_to(s, 1700));
    assert(is_calm_to(s, 1750));
    assert(is_calm_to(s, 1800));
    assert(is_calm_to(s, 1850));
    assert(is_calm_to(s, 1900));
    assert(is_calm_to(s, 1950));
    assert(is_calm_to(s, 2000));
    assert(is_calm_to(s, 2050));
    assert(is_calm_to(s, 2100));
    assert(is_calm_to(s, 2150));
    assert(is_calm_to(s, 2200));
    assert(is_calm_to(s, 2250));
    assert(is_calm_to(s, 2300));
    assert(is_calm_to(s, 2350));
    assert(is_calm_to(s, 2400));
    assert(is_calm_to(s, 2450));
    assert(is_calm_to(s, 2500));
    assert(is_calm_to(s, 2550));
    assert(is_calm_to(s, 2590));
    lemma_calm_to(s, 2590);
}

proof fn lemma_page_badge()
    ensures
        is_calm(PAGE_BADGE@),
{
    reveal_strlit(
        r#"">"#,
    );
    let s = PAGE_BADGE@;
    reveal_with_fuel(is_calm_to, 51);
    assert(s.len() == 2);
    assert(is_calm_to(s, 2));
    lemma_calm_to(s, 2);
}

proof fn lemma_page_headline()
    ensures
        is_calm(PAGE_HEADLINE@),
{
    reveal_strlit(
        r#"</span>
  <h1>"#,
    );
    let s = PAGE_HEADLINE@;
    reveal_with_fuel(is_calm_to, 51);
    assert(s.len() == 14);
    assert(is_calm_to(s, 14));
    lemma_calm_to(s, 14);
}

proof fn lemma_page_source()
    ensures
        is_calm(PAGE_SOURCE@),
{
    reveal_strlit(
        r#"</h1>
  <p class="meta">Source: <span class="source-label">"#,
    );
    let s = PAGE_SOURCE@;
    reveal_with_fuel(is_calm_to, 51);
    assert(s.len() == 59);
    assert(is_calm_to(s, 50));
    assert(is_calm_to(s, 59));
    lemma_calm_to(s, 59);
}

proof fn lemma_page_egress()
    ensures
        is_calm(PAGE_EGRESS@),
{
    reveal_strlit(
        r#"</span></p>
</header>

<div class="stats">
  <div class="stat"><div class="stat-label">Egress points evaluated</div><div class="stat-value">"#,
    );
    let s = PAGE_EGRESS@;
    reveal_with_fuel(is_calm_to, 51);
    assert(s.len() == 140);
    assert(is_calm_to(s, 50));
    assert(is_calm_to(s, 100));
    assert(is_calm_to(s, 140));
    lemma_calm_to(s, 140);
}

proof fn lemma_page_red()
    ensures
        is_calm(PAGE_RED@),
{
    reveal_strlit(
        r#"</div></div>
  <div class="stat"><div class="stat-label">Red verdicts</div><div class="stat-value">"#,
    );
    let s = PAGE_RED@;
    reveal_with_fuel(is_calm_to, 51);
    assert(s.len() == 99);
    assert(is_calm_to(s, 50));
    assert(is_calm_to(s, 99));
    lemma_calm_to(s, 99);
}

proof fn lemma_page_tenant()
    ensures
        is_calm(PAGE_TENANT@),
{
    reveal_strlit(
        r#"</div></div>
  <div class="stat"><div class="stat-label">Tenant</div><div class="stat-value" style="font-family: ui-monospace, Menlo, monospace; font-size: 0.95rem; word-break: break-all;">"#,
    );
    let s = PAGE_TENANT@;
    reveal_with_fuel(is_calm_to, 51);
    assert(s.len() == 189);
    assert(is_calm_to(s, 50));
    assert(is_calm_to(s, 100));
    assert(is_calm_to(s, 150));
    assert(is_calm_to(s, 189));
    lemma_calm_to(s, 189);
}

proof fn lemma_page_verdicts()
    ensures
        is_calm(PAGE_VERDICTS@),
{
    reveal_strlit(
        r#"</div></div>
</div>

<h2>Verdicts ("#,
    );
    let s = PAGE_VERDICTS@;
    reveal_with_fuel(is_calm_to, 51);
    assert(s.len() == 35);
    assert(is_calm_to(s, 35));
    lemma_calm_to(s, 35);
}

proof fn lemma_page_cards()
    ensures
        is_calm(PAGE_CARDS@),
{
    reveal_strlit(
        r#")</h2>
"#,
    );
    let s = PAGE_CARDS@;
    reveal_with_fuel(is_calm_to, 51);
    assert(s.len() == 7);
    assert(is_calm_to(s, 7));
    lemma_calm_to(s, 7);
}

proof fn lemma_page_raw()
    ensures
        is_calm(PAGE_RAW@),
{
    reveal_strlit(
        r#"

<h2>Raw response</h2>
<details>
  <summary>Show raw verdict JSON</summary>
  <pre>"#,
    );
    let s = PAGE_RAW@;
    reveal_with_fuel(is_calm_to, 51);
    assert(s.len() == 84);
    assert(is_calm_to(s, 50));
    assert(is_calm_to(s, 84));
    lemma_calm_to(s, 84);
}

proof fn lemma_page_version()
    ensures
        is_calm(PAGE_VERSION@),
{
    reveal_strlit(
        r#"</pre>
</details>

<footer>
  <p>Generated by <code>provenex-ingest v"#,
    );
    let s = PAGE_VERSION@;
    reveal_with_fuel(is_calm_to, 51);
    assert(s.len() == 69);
    assert(is_calm_to(s, 50));
    assert(is_calm_to(s, 69));
    lemma_calm_to(s, 69);
}

proof fn lemma_page_time()
    ensures
        is_calm(PAGE_TIME@),
{
    reveal_strlit(
        r#"</code> on "#,
    );
    let s = PAGE_TIME@;
    reveal_with_fuel(is_calm_to, 51);
    assert(s.len() == 11);
    assert(is_calm_to(s, 11));
    lemma_calm_to(s, 11);
}

proof fn lemma_page_end()
    ensures
        is_calm(PAGE_END@),
{
    reveal_strlit(
        r#".</p>
  <p>Questions / feedback: <a href="mailto:skulk@provenex.ai">skulk@provenex.ai</a> · <a href="https://provenex.ai">provenex.ai</a></p>
  <p style="margin-top: 1rem; font-size: 0.85rem; color: #888;">
    Each verdict in the response carries an <code>ed25519</code>-signed artifact under the
    <code>trial-2026-06</code> key (retrievable via <code>/v1/verdicts</code>) so the closure
    is verifiable even after this HTML report is forwarded onward.
  </p>
</footer>
</body>
</html>
"#,
    );
    let s = PAGE_END@;
    reveal_with_fuel(is_calm_to, 51);
    assert(s.len() == 492);
    assert(is_calm_to(s, 50));
    assert(is_calm_to(s, 100));
    assert(is_calm_to(s, 150));
    assert(is_calm_to(s, 200));
    assert(is_calm_to(s, 250));
    assert(is_calm_to(s, 300));
    assert(is_calm_to(s, 350));
    assert(is_calm_to(s, 400));
    assert(is_calm_to(s, 450));
    assert(is_calm_to(s, 492));
    lemma_calm_to(s, 492);
}

proof fn lemma_card_binding()
    ensures
        is_calm(CARD_BINDING@),
{
    reveal_strlit(
        r#"<div class="card">
  <div class="card-header"><span class="binding">"#,
    );
    let s = CARD_BINDING@;
    reveal_with_fuel(is_calm_to, 51);
    assert(s.len() == 68);
    assert(is_calm_to(s, 50));
    assert(is_calm_to(s, 68));
    lemma_calm_to(s, 68);
}

proof fn lemma_card_class()
    ensures
        is_calm(CARD_CLASS@),
{
    reveal_strlit(
        r#"</span><span class="risk risk-"#,
    );
    let s = CARD_CLASS@;
    reveal_with_fuel(is_calm_to, 51);
    assert(s.len() == 30);
    assert(is_calm_to(s, 30));
    lemma_calm_to(s, 30);
}

proof fn lemma_card_risk()
    ensures
        is_calm(CARD_RISK@),
{
    reveal_strlit(
        r#"">"#,
    );
    let s = CARD_RISK@;
    reveal_with_fuel(is_calm_to, 51);
    assert(s.len() == 2);
    assert(is_calm_to(s, 2));
    lemma_calm_to(s, 2);
}

proof fn lemma_card_index()
    ensures
        is_calm(CARD_INDEX@),
{
    reveal_strlit(
        r#"</span><span class="idx">#"#,
    );
    let s = CARD_INDEX@;
    reveal_with_fuel(is_calm_to, 51);
    assert(s.len() == 26);
    assert(is_calm_to(s, 26));
    lemma_calm_to(s, 26);
}

proof fn lemma_card_explanation()
    ensures
        is_calm(CARD_EXPLANATION@),
{
    reveal_strlit(
        r#"</span></div>
  <p class="explanation">"#,
    );
    let s = CARD_EXPLANATION@;
    reveal_with_fuel(is_calm_to, 51);
    assert(s.len() == 39);
    assert(is_calm_to(s, 39));
    lemma_calm_to(s, 39);
}

proof fn lemma_card_key()
    ensures
        is_calm(CARD_KEY@),
{
    reveal_strlit(
        r#"</p>
  <p class="key">correlation: <code>"#,
    );
    let s = CARD_KEY@;
    reveal_with_fuel(is_calm_to, 51);
    assert(s.len() == 41);
    assert(is_calm_to(s, 41));
    lemma_calm_to(s, 41);
}

proof fn lemma_card_end()
    ensures
        is_calm(CARD_END@),
{
    reveal_strlit(
        r#"</code></p>
</div>
"#,
    );
    let s = CARD_END@;
    reveal_with_fuel(is_calm_to, 51);
    assert(s.len() == 19);
    assert(is_calm_to(s, 19));
    lemma_calm_to(s, 19);
}

/// Digits open nothing.
proof fn lemma_decimal_opens_nothing(n: nat)
    ensures
        opens_nothing(decimal(n)),
    decreases n,
{
    if n >= 10 {
        lemma_decimal_opens_nothing(n / 10);
    }
}

/// Escaped text opens nothing.
proof fn lemma_html_opens_nothing(s: Seq<char>)
    ensures
        opens_nothing(html_text(s)),
{
    law_escaped_text_holds_no_markup(s);
}

/// Lower case opens nothing new.
proof fn lemma_lower_opens_nothing(s: Seq<char>)
    requires
        opens_nothing(s),
    ensures
        opens_nothing(ascii_lower(s)),
{
    assert forall|i: int| 0 <= i < ascii_lower(s).len() implies #[trigger] ascii_lower(s)[i]
        != '<' by {
        assert(s[i] != '<');
    }
}

/// Text that opens nothing behind calm text.
proof fn lemma_calm_then_closed(a: Seq<char>, b: Seq<char>)
    requires
        is_calm(a),
        opens_nothing(b),
    ensures
        is_calm(a + b),
{
    lemma_closed_is_calm(b);
    lemma_calm_concat(a, b);
}

/// What a card shows of the risk, as it stands in the class.
pub open spec fn risk_of(verdict: JsonView) -> Seq<char> {
    verdict.get_text_or("risk"@, "?"@)
}

proof fn lemma_card_is_calm(verdict: JsonView, number: nat)
    requires
        opens_nothing(risk_of(verdict)),
    ensures
        is_calm(card(verdict, number)),
{
    let risk = risk_of(verdict);
    let binding = html_text(verdict.get_text_or("binding_reason"@, "(unclassified)"@));
    let explanation = html_text(verdict.get_text_or("explanation"@, ""@));
    let key = html_text(verdict.get_text_or("correlation_key"@, "?"@));
    lemma_card_binding();
    lemma_card_class();
    lemma_card_risk();
    lemma_card_index();
    lemma_card_explanation();
    lemma_card_key();
    lemma_card_end();
    lemma_html_opens_nothing(verdict.get_text_or("binding_reason"@, "(unclassified)"@));
    lemma_html_opens_nothing(verdict.get_text_or("explanation"@, ""@));
    lemma_html_opens_nothing(verdict.get_text_or("correlation_key"@, "?"@));
    lemma_html_opens_nothing(risk);
    lemma_lower_opens_nothing(risk);
    lemma_decimal_opens_nothing(number);
    let t1 = CARD_BINDING@ + binding;
    lemma_calm_then_closed(CARD_BINDING@, binding);
    let t2 = t1 + CARD_CLASS@;
    lemma_calm_concat(t1, CARD_CLASS@);
    let t3 = t2 + ascii_lower(risk);
    lemma_calm_then_closed(t2, ascii_lower(risk));
    let t4 = t3 + CARD_RISK@;
    lemma_calm_concat(t3, CARD_RISK@);
    let t5 = t4 + html_text(risk);
    lemma_calm_then_closed(t4, html_text(risk));
    let t6 = t5 + CARD_INDEX@;
    lemma_calm_concat(t5, CARD_INDEX@);
    let t7 = t6 + decimal(number);
    lemma_calm_then_closed(t6, decimal(number));
    let t8 = t7 + CARD_EXPLANATION@;
    lemma_calm_concat(t7, CARD_EXPLANATION@);
    let t9 = t8 + explanation;
    lemma_calm_then_closed(t8, explanation);
    let t10 = t9 + CARD_KEY@;
    lemma_calm_concat(t9, CARD_KEY@);
    let t11 = t10 + key;
    lemma_calm_then_closed(t10, key);
    lemma_calm_concat(t11, CARD_END@);
}

proof fn lemma_cards_are_calm(verdicts: Seq<JsonView>)
    requires
        forall|i: int| 0 <= i < verdicts.len() ==> opens_nothing(risk_of(#[trigger] verdicts[i])),
    ensures
        is_calm(cards(verdicts)),
    decreases verdicts.len(),
{
    if verdicts.len() > 0 {
        let rest = verdicts.drop_last();
        assert forall|i: int| 0 <= i < rest.len() implies opens_nothing(
            risk_of(#[trigger] rest[i]),
        ) by {
            assert(opens_nothing(risk_of(verdicts[i])));
        }
        lemma_cards_are_calm(rest);
        assert(opens_nothing(risk_of(verdicts[verdicts.len() - 1])));
        lemma_card_is_calm(verdicts.last(), verdicts.len());
        lemma_calm_concat(cards(rest), card(verdicts.last(), verdicts.len()));
    }
}

/// A report page is self-contained: whatever the verdict holds, nowhere on the page begins a tag
/// that makes a browser load a script, a style sheet, an image or a frame. The version and the
/// risks, which the page holds unescaped, must open no tag themselves.
pub proof fn law_report_is_self_contained(
    source: Seq<char>,
    verdict: JsonView,
    version: Seq<char>,
    now: Seq<char>,
    raw: Seq<char>,
)
    requires
        is_stamp(now),
        opens_nothing(version),
        forall|i: int|
            0 <= i < verdict.get_list("verdicts"@).len() ==> opens_nothing(
                risk_of(#[trigger] verdict.get_list("verdicts"@)[i]),
            ),
    ensures
        forall|i: int| !#[trigger] loads_at(page(source, verdict, version, now, raw), i),
{
    let red = verdict.get_count("red_verdicts"@);
    let receipts = verdict.get_count("receipts_ingested"@);
    let verdicts = verdict.get_list("verdicts"@);
    let tenant = verdict.get_text_or("tenant_id"@, "(unknown)"@);
    let lead = html_text(headline(verdict));
    let class = if red > 0 {
        "badge-red"@
    } else {
        "badge-ok"@
    };
    let badge = if red > 0 {
        "RED"@
    } else {
        "OK"@
    };
    reveal_strlit("badge-red");
    reveal_strlit("badge-ok");
    reveal_strlit("RED");
    reveal_strlit("OK");
    assert(opens_nothing(class));
    assert(opens_nothing(badge));
    lemma_stamp_opens_nothing(now);
    lemma_html_opens_nothing(headline(verdict));
    lemma_html_opens_nothing(source);
    lemma_html_opens_nothing(tenant);
    lemma_html_opens_nothing(raw);
    lemma_decimal_opens_nothing(red as nat);
    lemma_decimal_opens_nothing(receipts as nat);
    lemma_decimal_opens_nothing(verdicts.len());
    lemma_cards_are_calm(verdicts);
    lemma_page_title();
    lemma_page_style();
    lemma_page_badge();
    lemma_page_headline();
    lemma_page_source();
    lemma_page_egress();
    lemma_page_red();
    lemma_page_tenant();
    lemma_page_verdicts();
    lemma_page_cards();
    lemma_page_raw();
    lemma_page_version();
    lemma_page_time();
    lemma_page_end();
    lemma_calm_then_closed(PAGE_TITLE@, lead);
    let t1 = PAGE_TITLE@ + lead;
    lemma_calm_concat(t1, PAGE_STYLE@);
    let t2 = t1 + PAGE_STYLE@;
    lemma_calm_then_closed(t2, class);
    let t3 = t2 + class;
    lemma_calm_concat(t3, PAGE_BADGE@);
    let t4 = t3 + PAGE_BADGE@;
    lemma_calm_then_closed(t4, badge);
    let t5 = t4 + badge;
    lemma_calm_concat(t5, PAGE_HEADLINE@);
    let t6 = t5 + PAGE_HEADLINE@;
    lemma_calm_then_closed(t6, lead);
    let t7 = t6 + lead;
    lemma_calm_concat(t7, PAGE_SOURCE@);
    let t8 = t7 + PAGE_SOURCE@;
    lemma_calm_then_closed(t8, html_text(source));
    let t9 = t8 + html_text(source);
    lemma_calm_concat(t9, PAGE_EGRESS@);
    let t10 = t9 + PAGE_EGRESS@;
    lemma_calm_then_closed(t10, decimal(receipts as nat));
    let t11 = t10 + decimal(receipts as nat);
    lemma_calm_concat(t11, PAGE_RED@);
    let t12 = t11 + PAGE_RED@;
    lemma_calm_then_closed(t12, decimal(red as nat));
    let t13 = t12 + decimal(red as nat);
    lemma_calm_concat(t13, PAGE_TENANT@);
    let t14 = t13 + PAGE_TENANT@;
    lemma_calm_then_closed(t14, html_text(tenant));
    let t15 = t14 + html_text(tenant);
    lemma_calm_concat(t15, PAGE_VERDICTS@);
    let t16 = t15 + PAGE_VERDICTS@;
    lemma_calm_then_closed(t16, decimal(verdicts.len()));
    let t17 = t16 + decimal(verdicts.len());
    lemma_calm_concat(t17, PAGE_CARDS@);
    let t18 = t17 + PAGE_CARDS@;
    lemma_calm_concat(t18, cards(verdicts));
    let t19 = t18 + cards(verdicts);
    lemma_calm_concat(t19, PAGE_RAW@);
    let t20 = t19 + PAGE_RAW@;
    lemma_calm_then_closed(t20, html_text(raw));
    let t21 = t20 + html_text(raw);
    lemma_calm_concat(t21, PAGE_VERSION@);
    let t22 = t21 + PAGE_VERSION@;
    lemma_calm_then_closed(t22, version);
    let t23 = t22 + version;
    lemma_calm_concat(t23, PAGE_TIME@);
    let t24 = t23 + PAGE_TIME@;
    lemma_calm_then_closed(t24, now);
    let t25 = t24 + now;
    lemma_calm_concat(t25, PAGE_END@);
    let t26 = t25 + PAGE_END@;
    assert(t26 == page(source, verdict, version, now, raw));
    lemma_calm_loads_nothing(t26);
}

/// A time opens nothing.
proof fn lemma_stamp_opens_nothing(now: Seq<char>)
    requires
        is_stamp(now),
    ensures
        opens_nothing(now),
{
    let n = now.len() - 16;
    assert forall|i: int| 0 <= i < now.len() implies #[trigger] now[i] != '<' by {
        if i < n {
            assert(now[i] == now.take(n)[i]);
        } else {
            assert(now[i] == now.skip(n)[i - n]);
        }
    }
}

} // verus!
