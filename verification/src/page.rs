//! The words and the markup of a report page, cut where the values go.
use vstd::prelude::*;

verus! {

/// From the front to the headline in the title.
pub const PAGE_TITLE: &'static str = r#"<!DOCTYPE html>
<html lang="en">
<head>
<meta charset="utf-8" />
<meta name="viewport" content="width=device-width, initial-scale=1" />
<title>Provenex verdict — "#;

/// From the title to the class of the badge.
pub const PAGE_STYLE: &'static str = r#"</title>
<style>
  body { font-family: -apple-system, BlinkMacSystemFont, "Segoe UI", system-ui, sans-serif; max-width: 920px; margin: 2rem auto; padding: 0 1rem; color: #1f1f1f; line-height: 1.55; background: #fafafa; }
  h1 { font-size: 1.7rem; margin: 0 0 .3rem; }
  h2 { font-size: 1.1rem; margin: 2rem 0 .8rem; padding-bottom: .25rem; border-bottom: 1px solid #ddd; color: #444; }
  .badge { display: inline-block; padding: 2px 10px; border-radius: 4px; font-weight: 700; font-size: 0.85rem; letter-spacing: .04em; margin-right: .5rem; }
  .badge-red { background: #d83b3b; color: #fff; }
  .badge-ok { background: #2c9c5e; color: #fff; }
  .meta { color: #666; margin: .25rem 0 1.5rem; font-size: 0.9rem; }
  .stats { display: flex; gap: 1.5rem; padding: 1rem 1.25rem; background: #fff; border: 1px solid #e5e5e5; border-radius: 8px; margin: 1.5rem 0; }
  .stat { flex: 1; }
  .stat-label { font-size: 0.85rem; color: #666; text-transform: uppercase; letter-spacing: .04em; }
  .stat-value { font-size: 1.4rem; font-weight: 700; margin-top: 4px; }
  .card { background: #fff; border: 1px solid #e5e5e5; border-left: 4px solid #d83b3b; border-radius: 6px; padding: 1rem 1.25rem; margin: .75rem 0; }
  .card-header { display: flex; align-items: center; gap: .75rem; margin-bottom: .4rem; }
  .binding { font-weight: 700; font-family: ui-monospace, Menlo, monospace; font-size: 0.95rem; color: #d83b3b; }
  .risk { font-size: 0.75rem; padding: 2px 8px; border-radius: 999px; font-weight: 700; text-transform: uppercase; }
  .risk-high { background: #fee; color: #a00; }
  .risk-medium { background: #fff5d6; color: #9a6800; }
  .risk-low { background: #e6f4ea; color: #2c7a3f; }
  .risk-unknown { background: #eee; color: #555; }
  .idx { margin-left: auto; color: #888; font-family: ui-monospace, Menlo, monospace; font-size: 0.85rem; }
  .explanation { margin: .35rem 0; }
  .key { font-size: 0.85rem; color: #666; margin: .2rem 0 0; }
  code { background: #f0f0f0; padding: 1px 5px; border-radius: 3px; font-size: 0.88em; }
  pre { background: #1f1f1f; color: #e6e6e6; padding: 1rem 1.25rem; border-radius: 6px; overflow-x: auto; font-size: 0.85rem; line-height: 1.45; }
  details { margin: 1rem 0; }
  details summary { cursor: pointer; color: #5560b4; font-weight: 500; padding: .5rem 0; }
  footer { margin-top: 3rem; padding-top: 1rem; border-top: 1px solid #ddd; color: #777; font-size: 0.9rem; }
  footer a { color: #5560b4; }
  .source-label { font-family: ui-monospace, Menlo, monospace; color: #444; font-size: 0.9rem; }
</style>
</head>
<body>
<header>
  <span class="badge "#;

/// Between the class and the words of the badge.
pub const PAGE_BADGE: &'static str = r#"">"#;

/// From the badge to the headline.
pub const PAGE_HEADLINE: &'static str = r#"</span>
  <h1>"#;

/// From the headline to the source.
pub const PAGE_SOURCE: &'static str = r#"</h1>
  <p class="meta">Source: <span class="source-label">"#;

/// From the source to the count of egress points.
pub const PAGE_EGRESS: &'static str = r#"</span></p>
</header>

<div class="stats">
  <div class="stat"><div class="stat-label">Egress points evaluated</div><div class="stat-value">"#;

/// From there to the count of red verdicts.
pub const PAGE_RED: &'static str = r#"</div></div>
  <div class="stat"><div class="stat-label">Red verdicts</div><div class="stat-value">"#;

/// From there to the tenant.
pub const PAGE_TENANT: &'static str = r#"</div></div>
  <div class="stat"><div class="stat-label">Tenant</div><div class="stat-value" style="font-family: ui-monospace, Menlo, monospace; font-size: 0.95rem; word-break: break-all;">"#;

/// From the tenant to the count of verdicts.
pub const PAGE_VERDICTS: &'static str = r#"</div></div>
</div>

<h2>Verdicts ("#;

/// Between the count and the cards.
pub const PAGE_CARDS: &'static str = r#")</h2>
"#;

/// From the cards to the raw verdict.
pub const PAGE_RAW: &'static str = r#"

<h2>Raw response</h2>
<details>
  <summary>Show raw verdict JSON</summary>
  <pre>"#;

/// From the raw verdict to the version.
pub const PAGE_VERSION: &'static str = r#"</pre>
</details>

<footer>
  <p>Generated by <code>provenex-ingest v"#;

/// Between the version and the time.
pub const PAGE_TIME: &'static str = r#"</code> on "#;

/// From the time to the end.
pub const PAGE_END: &'static str = r#".</p>
  <p>Questions / feedback: <a href="mailto:skulk@provenex.ai">skulk@provenex.ai</a> · <a href="https://provenex.ai">provenex.ai</a></p>
  <p style="margin-top: 1rem; font-size: 0.85rem; color: #888;">
    Each verdict in the response carries an <code>ed25519</code>-signed artifact under the
    <code>trial-2026-06</code> key (retrievable via <code>/v1/verdicts</code>) so the closure
    is verifiable even after this HTML report is forwarded onward.
  </p>
</footer>
</body>
</html>
"#;

/// From the front of a card to the binding reason.
pub const CARD_BINDING: &'static str = r#"<div class="card">
  <div class="card-header"><span class="binding">"#;

/// From there to the class of the risk.
pub const CARD_CLASS: &'static str = r#"</span><span class="risk risk-"#;

/// Between the class and the risk.
pub const CARD_RISK: &'static str = r#"">"#;

/// From the risk to the number of the card.
pub const CARD_INDEX: &'static str = r#"</span><span class="idx">#"#;

/// From there to the explanation.
pub const CARD_EXPLANATION: &'static str = r#"</span></div>
  <p class="explanation">"#;

/// From there to the correlation key.
pub const CARD_KEY: &'static str = r#"</p>
  <p class="key">correlation: <code>"#;

/// From there to the end of the card.
pub const CARD_END: &'static str = r#"</code></p>
</div>
"#;

} // verus!
