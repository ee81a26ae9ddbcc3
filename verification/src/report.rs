//! How a verdict is presented, in the lines on the terminal and in the report page.
use crate::codec::{parsed_text, value_to_pretty};
use crate::forward::{is_success, parse_body, succeeded, ForwardResult};
use crate::json::{entry_views, item_views, Json, JsonView};
use crate::page::{
    CARD_BINDING, CARD_CLASS, CARD_END, CARD_EXPLANATION, CARD_INDEX, CARD_KEY, CARD_RISK,
    PAGE_BADGE, PAGE_CARDS, PAGE_EGRESS, PAGE_END, PAGE_HEADLINE, PAGE_RAW, PAGE_RED, PAGE_SOURCE,
    PAGE_STYLE, PAGE_TENANT, PAGE_TIME, PAGE_TITLE, PAGE_VERDICTS, PAGE_VERSION,
};
use crate::text::{ascii_lower, decimal, decimal_text, texts, to_ascii_lower};
use vstd::prelude::*;

verus! {

/// A character as HTML text: the five that mean something to HTML by their entities.
pub open spec fn html_char(c: char) -> Seq<char> {
    if c == '<' {
        "&lt;"@
    } else if c == '>' {
        "&gt;"@
    } else if c == '&' {
        "&amp;"@
    } else if c == '"' {
        "&quot;"@
    } else if c == '\'' {
        "&#39;"@
    } else {
        seq![c]
    }
}

/// A text as HTML text.
pub open spec fn html_text(s: Seq<char>) -> Seq<char>
    decreases s.len(),
{
    if s.len() == 0 {
        Seq::empty()
    } else {
        html_text(s.drop_last()) + html_char(s.last())
    }
}

/// A text as HTML text.
pub fn html_escape(s: &str) -> (r: String)
    ensures
        r@ == html_text(s@),
{
    let mut out = String::new();
    for c in it: s.chars()
        invariant
            it.seq() == s@,
            out@ == html_text(s@.take(it.index())),
    {
        proof {
            let upto = s@.take(it.index() + 1);
            assert(upto.drop_last() =~= s@.take(it.index()));
            assert(upto.last() == c);
        }
        match c {
            '<' => out.append("&lt;"),
            '>' => out.append("&gt;"),
            '&' => out.append("&amp;"),
            '"' => out.append("&quot;"),
            '\'' => out.append("&#39;"),
            _ => {
                let ghost before = out@;
                out.push(c);
                assert(out@ =~= before + seq![c]);
            },
        }
    }
    assert(s@.take(s@.len() as int) =~= s@);
    out
}

/// The card of one verdict, the `number`-th of the page.
pub open spec fn card(verdict: JsonView, number: nat) -> Seq<char> {
    let risk = verdict.get_text_or("risk"@, "?"@);
    CARD_BINDING@ + html_text(verdict.get_text_or("binding_reason"@, "(unclassified)"@))
        + CARD_CLASS@ + ascii_lower(risk) + CARD_RISK@ + html_text(risk) + CARD_INDEX@ + decimal(
        number,
    ) + CARD_EXPLANATION@ + html_text(verdict.get_text_or("explanation"@, ""@)) + CARD_KEY@
        + html_text(verdict.get_text_or("correlation_key"@, "?"@)) + CARD_END@
}

/// The cards of some verdicts, numbered from one.
pub open spec fn cards(verdicts: Seq<JsonView>) -> Seq<char>
    decreases verdicts.len(),
{
    if verdicts.len() == 0 {
        Seq::empty()
    } else {
        cards(verdicts.drop_last()) + card(verdicts.last(), verdicts.len())
    }
}

fn append_card(out: &mut String, verdict: &Json, number: u64)
    ensures
        final(out)@ == old(out)@ + card(verdict@, number as nat),
{
    let risk = verdict.get_text_or("risk", "?");
    let binding = html_escape(verdict.get_text_or("binding_reason", "(unclassified)"));
    let class = to_ascii_lower(risk);
    let shown = html_escape(risk);
    let index = decimal_text(number);
    let explanation = html_escape(verdict.get_text_or("explanation", ""));
    let key = html_escape(verdict.get_text_or("correlation_key", "?"));
    let mut text = CARD_BINDING.to_owned();
    text.append(binding.as_str());
    text.append(CARD_CLASS);
    text.append(class.as_str());
    text.append(CARD_RISK);
    text.append(shown.as_str());
    text.append(CARD_INDEX);
    text.append(index.as_str());
    text.append(CARD_EXPLANATION);
    text.append(explanation.as_str());
    text.append(CARD_KEY);
    text.append(key.as_str());
    text.append(CARD_END);
    out.append(text.as_str());
}

/// What a report leads with: why the first verdict was reached, or what the count of red
/// verdicts comes to.
pub open spec fn headline(verdict: JsonView) -> Seq<char> {
    let verdicts = verdict.get_list("verdicts"@);
    let clean = if verdict.get_count("red_verdicts"@) == 0 {
        "No red verdicts; closure walked clean."@
    } else {
        "Cross-zone composition detected."@
    };
    if verdicts.len() > 0 {
        verdicts[0].get_text_or("binding_reason"@, clean)
    } else {
        clean
    }
}

/// The report page on a verdict.
pub open spec fn page(
    source: Seq<char>,
    verdict: JsonView,
    version: Seq<char>,
    now: Seq<char>,
    raw: Seq<char>,
) -> Seq<char> {
    let red = verdict.get_count("red_verdicts"@);
    let verdicts = verdict.get_list("verdicts"@);
    let lead = html_text(headline(verdict));
    PAGE_TITLE@ + lead + PAGE_STYLE@ + (if red > 0 {
        "badge-red"@
    } else {
        "badge-ok"@
    }) + PAGE_BADGE@ + (if red > 0 {
        "RED"@
    } else {
        "OK"@
    }) + PAGE_HEADLINE@ + lead + PAGE_SOURCE@ + html_text(source) + PAGE_EGRESS@ + decimal(
        verdict.get_count("receipts_ingested"@) as nat,
    ) + PAGE_RED@ + decimal(red as nat) + PAGE_TENANT@ + html_text(
        verdict.get_text_or("tenant_id"@, "(unknown)"@),
    ) + PAGE_VERDICTS@ + decimal(verdicts.len()) + PAGE_CARDS@ + cards(verdicts) + PAGE_RAW@
        + html_text(raw) + PAGE_VERSION@ + version + PAGE_TIME@ + now + PAGE_END@
}

/// The report page on a verdict, at the time `now` and with `raw` for the verdict in full.
pub fn render_page(source_label: &str, verdict: &Json, version: &str, now: &str, raw: &str) -> (r:
    String)
    ensures
        r@ == page(source_label@, verdict@, version@, now@, raw@),
{
    let red = verdict.get_count("red_verdicts");
    let receipts_ingested = verdict.get_count("receipts_ingested");
    let tenant = verdict.get_text_or("tenant_id", "(unknown)");
    let clean = if red == 0 {
        "No red verdicts; closure walked clean."
    } else {
        "Cross-zone composition detected."
    };
    let ghost views = verdict@.get_list("verdicts"@);
    let mut verdict_cards = String::new();
    let mut count: u64 = 0;
    let mut lead = clean;
    assert(verdict_cards@ =~= cards(views.take(0)));
    if let Some(verdicts) = verdict.get_list("verdicts") {
        if verdicts.len() > 0 {
            lead = verdicts[0].get_text_or("binding_reason", clean);
            assert(views[0] == verdicts@[0]@);
        }
        for i in 0..verdicts.len()
            invariant
                views == item_views(verdicts@),
                verdict_cards@ == cards(views.take(i as int)),
        {
            proof {
                let upto = views.take(i + 1);
                assert(upto.drop_last() =~= views.take(i as int));
                assert(upto.last() == verdicts@[i as int]@);
            }
            append_card(&mut verdict_cards, &verdicts[i], (i + 1) as u64);
        }
        count = verdicts.len() as u64;
    }
    assert(views.take(views.len() as int) =~= views);
    let headline_esc = html_escape(lead);
    let source_esc = html_escape(source_label);
    let tenant_esc = html_escape(tenant);
    let raw_esc = html_escape(raw);
    let mut out = PAGE_TITLE.to_owned();
    out.append(headline_esc.as_str());
    out.append(PAGE_STYLE);
    out.append(
        if red > 0 {
            "badge-red"
        } else {
            "badge-ok"
        },
    );
    out.append(PAGE_BADGE);
    out.append(
        if red > 0 {
            "RED"
        } else {
            "OK"
        },
    );
    out.append(PAGE_HEADLINE);
    out.append(headline_esc.as_str());
    out.append(PAGE_SOURCE);
    out.append(source_esc.as_str());
    out.append(PAGE_EGRESS);
    out.append(decimal_text(receipts_ingested).as_str());
    out.append(PAGE_RED);
    out.append(decimal_text(red).as_str());
    out.append(PAGE_TENANT);
    out.append(tenant_esc.as_str());
    out.append(PAGE_VERDICTS);
    out.append(decimal_text(count).as_str());
    out.append(PAGE_CARDS);
    out.append(verdict_cards.as_str());
    out.append(PAGE_RAW);
    out.append(raw_esc.as_str());
    out.append(PAGE_VERSION);
    out.append(version);
    out.append(PAGE_TIME);
    out.append(now);
    out.append(PAGE_END);
    out
}

/// Whether a character is a decimal digit.
pub open spec fn is_digit(c: char) -> bool {
    '0' <= c <= '9'
}

/// The number that the characters at `i` and `i + 1` write in decimal.
pub open spec fn two_digits(s: Seq<char>, i: int) -> int {
    (s[i] as int - 48) * 10 + (s[i + 1] as int - 48)
}

/// The year of a time: four digits, or a plus sign and at least five.
pub open spec fn is_year(s: Seq<char>) -> bool {
    ||| s.len() == 4 && (forall|i: int| 0 <= i < s.len() ==> is_digit(#[trigger] s[i]))
    ||| s.len() >= 6 && s[0] == '+' && (forall|i: int|
        1 <= i < s.len() ==> is_digit(#[trigger] s[i]))
}

/// What follows the year: `-MM-DD hh:mm UTC`.
pub open spec fn is_day_and_time(s: Seq<char>) -> bool {
    &&& s.len() == 16
    &&& s[0] == '-' && s[3] == '-' && s[6] == ' ' && s[9] == ':' && s[12] == ' '
    &&& s[13] == 'U' && s[14] == 'T' && s[15] == 'C'
    &&& is_digit(s[1]) && is_digit(s[2]) && 1 <= two_digits(s, 1) <= 12
    &&& is_digit(s[4]) && is_digit(s[5]) && 1 <= two_digits(s, 4) <= 31
    &&& is_digit(s[7]) && is_digit(s[8]) && two_digits(s, 7) < 24
    &&& is_digit(s[10]) && is_digit(s[11]) && two_digits(s, 10) < 60
}

/// A time as reports give it, such as `2026-06-01 09:30 UTC`.
pub open spec fn is_stamp(s: Seq<char>) -> bool {
    &&& s.len() >= 20
    &&& is_year(s.take(s.len() - 16))
    &&& is_day_and_time(s.skip(s.len() - 16))
}

/// `chrono::Utc::now`, written by `format("%Y-%m-%d %H:%M UTC")`: the text has the form of a
/// time. Which time it is depends on the system clock, and nothing is said of it. The clock must
/// stand at 1970 or later, and at a date that `chrono` can hold.
#[verifier::external_body]
fn report_time() -> (r: String)
    ensures
        is_stamp(r@),
{
    chrono::Utc::now().format("%Y-%m-%d %H:%M UTC").to_string()
}

/// The report page on a verdict, at the present time.
pub fn render_verdict_html(source_label: &str, verdict: &Json, version: &str) -> (r: String)
    requires
        verdict@.wf(),
    ensures
        exists|now: Seq<char>| #[trigger]
            is_stamp(now) && r@ == page(
                source_label@,
                verdict@,
                version@,
                now,
                verdict@.sorted().pretty(),
            ),
{
    let now = report_time();
    let raw = match value_to_pretty(&verdict.clone().into_value()) {
        Ok(text) => text,
        // Writing a value to memory never fails.
        Err(_) => String::new(),
    };
    assert(is_stamp(now@));
    render_page(source_label, verdict, version, now.as_str(), raw.as_str())
}

/// How a summary line begins: with a failure, with red verdicts, or with neither.
pub open spec fn mark(status: u16, red: u64) -> Seq<char> {
    if !succeeded(status) {
        "✗ "@
    } else if red > 0 {
        "🔴"@
    } else {
        "✓ "@
    }
}

/// The line that sums a response up.
pub open spec fn summary_line(label: Seq<char>, status: u16, verdict: JsonView) -> Seq<char> {
    let red = verdict.get_count("red_verdicts"@);
    "  "@ + mark(status, red) + " "@ + label + "  status="@ + decimal(status as nat) + " egress="@
        + decimal(verdict.get_count("receipts_ingested"@) as nat) + " red="@ + decimal(red as nat)
}

/// The line on one verdict of a response.
pub open spec fn detail_line(verdict: JsonView) -> Seq<char> {
    "       • "@ + verdict.get_text_or("binding_reason"@, "(no binding)"@) + " / "@
        + verdict.get_text_or("risk"@, "?"@)
}

/// The verdicts of a response that get a line of their own: the first three, and only where some
/// are red.
pub open spec fn detailed(verdict: JsonView) -> Seq<JsonView> {
    let verdicts = verdict.get_list("verdicts"@);
    if verdict.get_count("red_verdicts"@) == 0 {
        Seq::empty()
    } else if verdicts.len() > 3 {
        verdicts.take(3)
    } else {
        verdicts
    }
}

/// What the terminal shows of a response.
pub open spec fn summary(label: Seq<char>, status: u16, verdict: JsonView) -> Seq<Seq<char>> {
    seq![summary_line(label, status, verdict)] + Seq::new(
        detailed(verdict).len(),
        |i: int| detail_line(detailed(verdict)[i]),
    )
}

/// What the terminal shows of a response whose body has been parsed.
pub fn summary_lines_for(label: &str, status: u16, verdict: &Json) -> (r: Vec<String>)
    ensures
        texts(r@) == summary(label@, status, verdict@),
{
    let red = verdict.get_count("red_verdicts");
    let egress = verdict.get_count("receipts_ingested");
    let mark_text = if is_success(status) {
        if red > 0 {
            "🔴"
        } else {
            "✓ "
        }
    } else {
        "✗ "
    };
    let mut line = "  ".to_owned();
    line.append(mark_text);
    line.append(" ");
    line.append(label);
    line.append("  status=");
    line.append(decimal_text(status as u64).as_str());
    line.append(" egress=");
    line.append(decimal_text(egress).as_str());
    line.append(" red=");
    line.append(decimal_text(red).as_str());
    assert(line@ == summary_line(label@, status, verdict@));
    let mut lines: Vec<String> = Vec::new();
    lines.push(line);
    let ghost shown = detailed(verdict@);
    let ghost want = summary(label@, status, verdict@);
    assert(texts(lines@) =~= want.take(1));
    if red > 0 {
        if let Some(verdicts) = verdict.get_list("verdicts") {
            let n = if verdicts.len() > 3 {
                3
            } else {
                verdicts.len()
            };
            for i in 0..n
                invariant
                    n <= verdicts@.len(),
                    n == shown.len(),
                    shown == item_views(verdicts@).take(n as int),
                    want == summary(label@, status, verdict@),
                    shown == detailed(verdict@),
                    texts(lines@) == want.take(i + 1),
            {
                let mut detail = "       • ".to_owned();
                detail.append(verdicts[i].get_text_or("binding_reason", "(no binding)"));
                detail.append(" / ");
                detail.append(verdicts[i].get_text_or("risk", "?"));
                let ghost before = texts(lines@);
                assert(shown[i as int] == verdicts@[i as int]@);
                assert(detail@ == detail_line(shown[i as int]));
                lines.push(detail);
                assert(texts(lines@) =~= before.push(detail@));
                assert(want.take(i + 2) =~= before.push(detail@));
            }
        }
    }
    assert(want.take(want.len() as int) =~= want);
    lines
}

/// What a response body holds if it is JSON, and an empty object otherwise.
pub open spec fn body_or_empty(parsed: Option<JsonView>) -> JsonView {
    match parsed {
        Some(v) => v,
        None => JsonView::Object(Seq::empty()),
    }
}

/// What the terminal shows of a response.
pub fn summary_lines(label: &str, result: &ForwardResult) -> (r: Vec<String>)
    ensures
        texts(r@) == summary(
            label@,
            result.status,
            body_or_empty(parsed_text(result.body@)),
        ),
{
    let verdict = match parse_body(result.body.as_str()) {
        Some(v) => v,
        None => {
            let none: Vec<(String, Json)> = Vec::new();
            assert(entry_views(none@) =~= Seq::empty());
            Json::Object(none)
        },
    };
    summary_lines_for(label, result.status, &verdict)
}

/// Escaped text holds no character that begins or ends a tag or an attribute.
pub proof fn law_escaped_text_holds_no_markup(s: Seq<char>)
    ensures
        forall|i: int|
            0 <= i < html_text(s).len() ==> {
                let c = #[trigger] html_text(s)[i];
                c != '<' && c != '>' && c != '"' && c != '\''
            },
    decreases s.len(),
{
    lemma_entities();
    if s.len() > 0 {
        law_escaped_text_holds_no_markup(s.drop_last());
        let front = html_text(s.drop_last());
        assert forall|i: int| 0 <= i < html_text(s).len() implies ({
            let c = #[trigger] html_text(s)[i];
            c != '<' && c != '>' && c != '"' && c != '\''
        }) by {
            if i < front.len() {
                assert(html_text(s)[i] == front[i]);
            } else {
                assert(html_text(s)[i] == html_char(s.last())[i - front.len()]);
            }
        }
    }
}

/// Text without the five special characters is shown as it is.
pub proof fn law_plain_text_is_shown_as_it_is(s: Seq<char>)
    requires
        forall|i: int|
            0 <= i < s.len() ==> {
                let c = #[trigger] s[i];
                c != '<' && c != '>' && c != '&' && c != '"' && c != '\''
            },
    ensures
        html_text(s) == s,
    decreases s.len(),
{
    if s.len() > 0 {
        law_plain_text_is_shown_as_it_is(s.drop_last());
        assert(html_text(s) =~= s);
    } else {
        assert(html_text(s) =~= s);
    }
}

/// The time of a report, which the page holds as it is, needs no escaping.
pub proof fn law_time_needs_no_escaping(now: Seq<char>)
    requires
        is_stamp(now),
    ensures
        html_text(now) == now,
{
    let n = now.len() - 16;
    let year = now.take(n);
    let rest = now.skip(n);
    assert forall|i: int| 0 <= i < now.len() implies {
        let c = #[trigger] now[i];
        c != '<' && c != '>' && c != '&' && c != '"' && c != '\''
    } by {
        if i < n {
            assert(now[i] == year[i]);
        } else {
            assert(now[i] == rest[i - n]);
        }
    }
    law_plain_text_is_shown_as_it_is(now);
}

/// Different texts are escaped differently.
pub proof fn law_escaping_loses_nothing(a: Seq<char>, b: Seq<char>)
    requires
        html_text(a) == html_text(b),
    ensures
        a == b,
    decreases a.len(),
{
    lemma_entities();
    if a.len() == 0 || b.len() == 0 {
        if a.len() > 0 {
            lemma_html_front(a);
        }
        if b.len() > 0 {
            lemma_html_front(b);
        }
        assert(a =~= b);
    } else {
        lemma_html_front(a);
        lemma_html_front(b);
        let x = html_text(a);
        let p = html_char(a[0]);
        let q = html_char(b[0]);
        let rest_a = html_text(a.skip(1));
        let rest_b = html_text(b.skip(1));
        assert(x[0] == p[0] && x[0] == q[0]);
        if p[0] == '&' {
            assert(x[1] == p[1] && x[1] == q[1]);
        }
        assert(a[0] == b[0]);
        assert(rest_a =~= x.skip(p.len() as int));
        assert(rest_b =~= x.skip(p.len() as int));
        law_escaping_loses_nothing(a.skip(1), b.skip(1));
        assert(a =~= seq![a[0]] + a.skip(1));
        assert(b =~= seq![b[0]] + b.skip(1));
    }
}

/// The first character can be escaped apart from the rest.
proof fn lemma_html_front(s: Seq<char>)
    requires
        s.len() > 0,
    ensures
        html_text(s) == html_char(s[0]) + html_text(s.skip(1)),
        html_char(s[0]).len() > 0,
    decreases s.len(),
{
    lemma_entities();
    let rest = s.drop_last();
    if s.len() == 1 {
        assert(html_text(rest) =~= Seq::empty());
        assert(html_text(s) =~= html_char(s[0]) + html_text(s.skip(1)));
    } else {
        lemma_html_front(rest);
        assert(s.skip(1).drop_last() =~= rest.skip(1));
        assert(html_text(s) =~= html_char(s[0]) + html_text(s.skip(1)));
    }
}

/// What the entities are made of.
proof fn lemma_entities()
    ensures
        "&lt;"@ == seq!['&', 'l', 't', ';'],
        "&gt;"@ == seq!['&', 'g', 't', ';'],
        "&amp;"@ == seq!['&', 'a', 'm', 'p', ';'],
        "&quot;"@ == seq!['&', 'q', 'u', 'o', 't', ';'],
        "&#39;"@ == seq!['&', '#', '3', '9', ';'],
{
    reveal_strlit("&lt;");
    reveal_strlit("&gt;");
    reveal_strlit("&amp;");
    reveal_strlit("&quot;");
    reveal_strlit("&#39;");
    assert("&lt;"@ =~= seq!['&', 'l', 't', ';']);
    assert("&gt;"@ =~= seq!['&', 'g', 't', ';']);
    assert("&amp;"@ =~= seq!['&', 'a', 'm', 'p', ';']);
    assert("&quot;"@ =~= seq!['&', 'q', 'u', 'o', 't', ';']);
    assert("&#39;"@ =~= seq!['&', '#', '3', '9', ';']);
}

/// Escaping goes character by character: five are written as entities, every other stays.
pub proof fn law_escaping_goes_character_by_character(a: Seq<char>, b: Seq<char>, c: char)
    ensures
        html_text(a + b) == html_text(a) + html_text(b),
        html_text(seq![c]) == if c == '<' {
            "&lt;"@
        } else if c == '>' {
            "&gt;"@
        } else if c == '&' {
            "&amp;"@
        } else if c == '"' {
            "&quot;"@
        } else if c == '\'' {
            "&#39;"@
        } else {
            seq![c]
        },
        html_text(Seq::empty()) == Seq::<char>::empty(),
    decreases b.len(),
{
    assert(seq![c].drop_last() =~= Seq::empty());
    assert(html_text(seq![c].drop_last()) =~= Seq::<char>::empty());
    assert(html_text(seq![c]) =~= html_char(c));
    if b.len() == 0 {
        assert(a + b =~= a);
        assert(html_text(a) + html_text(b) =~= html_text(a));
    } else {
        law_escaping_goes_character_by_character(a, b.drop_last(), c);
        assert((a + b).drop_last() =~= a + b.drop_last());
        assert(html_text(a + b) =~= html_text(a) + html_text(b));
    }
}

/// A template with its gaps filled in: a piece of the template, a part, the next piece, and so on.
pub open spec fn filled(pieces: Seq<Seq<char>>, parts: Seq<Seq<char>>) -> Seq<char>
    decreases parts.len(),
{
    if parts.len() == 0 {
        pieces[0]
    } else {
        filled(pieces.drop_last(), parts.drop_last()) + parts.last() + pieces.last()
    }
}

proof fn lemma_filled(pieces: Seq<Seq<char>>, parts: Seq<Seq<char>>, p: Seq<char>, g: Seq<char>)
    ensures
        filled(pieces.push(g), parts.push(p)) == filled(pieces, parts) + p + g,
{
    assert(pieces.push(g).drop_last() =~= pieces);
    assert(parts.push(p).drop_last() =~= parts);
}

/// Every verdict has its card, whatever the number of verdicts is: one more verdict adds its card,
/// with the next number, behind those before it.
pub proof fn law_every_verdict_has_its_card(verdicts: Seq<JsonView>, verdict: JsonView)
    ensures
        cards(Seq::empty()) == Seq::<char>::empty(),
        cards(verdicts.push(verdict)) == cards(verdicts) + card(verdict, verdicts.len() + 1),
{
    assert(verdicts.push(verdict).drop_last() =~= verdicts);
}

/// The card of a verdict stands on the page between those before it and those behind it.
pub proof fn law_cards_stand_in_order(verdicts: Seq<JsonView>, i: int)
    requires
        0 <= i < verdicts.len(),
    ensures
        exists|rest: Seq<char>|
            cards(verdicts) == #[trigger] (cards(verdicts.take(i)) + card(
                verdicts[i],
                (i + 1) as nat,
            ) + rest),
    decreases verdicts.len(),
{
    let less = verdicts.drop_last();
    let own = card(verdicts[i], (i + 1) as nat);
    law_every_verdict_has_its_card(less, verdicts.last());
    assert(less.push(verdicts.last()) =~= verdicts);
    if i == verdicts.len() - 1 {
        assert(verdicts.take(i) =~= less);
        let rest = Seq::<char>::empty();
        assert(cards(verdicts) =~= cards(verdicts.take(i)) + own + rest);
    } else {
        law_cards_stand_in_order(less, i);
        assert(less.take(i) =~= verdicts.take(i));
        let before = choose|rest: Seq<char>|
            cards(less) == #[trigger] (cards(less.take(i)) + own + rest);
        let rest = before + card(verdicts.last(), verdicts.len());
        assert(cards(verdicts) =~= cards(verdicts.take(i)) + own + rest);
    }
}

/// A card is its template with reason, risk, number, explanation and correlation key filled in, in
/// full.
pub proof fn law_cards_are_filled_in(verdict: JsonView, number: nat)
    ensures
        card(verdict, number) == filled(
            seq![
                CARD_BINDING@,
                CARD_CLASS@,
                CARD_RISK@,
                CARD_INDEX@,
                CARD_EXPLANATION@,
                CARD_KEY@,
                CARD_END@,
            ],
            seq![
                html_text(verdict.get_text_or("binding_reason"@, "(unclassified)"@)),
                ascii_lower(verdict.get_text_or("risk"@, "?"@)),
                html_text(verdict.get_text_or("risk"@, "?"@)),
                decimal(number),
                html_text(verdict.get_text_or("explanation"@, ""@)),
                html_text(verdict.get_text_or("correlation_key"@, "?"@)),
            ],
        ),
{
    let q0 = seq![CARD_BINDING@];
    let q1 = q0.push(CARD_CLASS@);
    let q2 = q1.push(CARD_RISK@);
    let q3 = q2.push(CARD_INDEX@);
    let q4 = q3.push(CARD_EXPLANATION@);
    let q5 = q4.push(CARD_KEY@);
    let q6 = q5.push(CARD_END@);
    let none = Seq::<Seq<char>>::empty();
    let a = html_text(verdict.get_text_or("binding_reason"@, "(unclassified)"@));
    let b = ascii_lower(verdict.get_text_or("risk"@, "?"@));
    let c = html_text(verdict.get_text_or("risk"@, "?"@));
    let d = decimal(number);
    let e = html_text(verdict.get_text_or("explanation"@, ""@));
    let f = html_text(verdict.get_text_or("correlation_key"@, "?"@));
    let p1 = none.push(a);
    let p2 = p1.push(b);
    let p3 = p2.push(c);
    let p4 = p3.push(d);
    let p5 = p4.push(e);
    let p6 = p5.push(f);
    lemma_filled(q0, none, a, CARD_CLASS@);
    lemma_filled(q1, p1, b, CARD_RISK@);
    lemma_filled(q2, p2, c, CARD_INDEX@);
    lemma_filled(q3, p3, d, CARD_EXPLANATION@);
    lemma_filled(q4, p4, e, CARD_KEY@);
    lemma_filled(q5, p5, f, CARD_END@);
    assert(q6 =~= seq![
        CARD_BINDING@,
        CARD_CLASS@,
        CARD_RISK@,
        CARD_INDEX@,
        CARD_EXPLANATION@,
        CARD_KEY@,
        CARD_END@,
    ]);
    assert(p6 =~= seq![a, b, c, d, e, f]);
}

/// A page is its template with headline, badge, source, counts, tenant, cards, the verdict in
/// full, version and time filled in, whatever they hold.
pub proof fn law_pages_are_filled_in(
    source: Seq<char>,
    verdict: JsonView,
    version: Seq<char>,
    now: Seq<char>,
    raw: Seq<char>,
)
    ensures
        ({
            let red = verdict.get_count("red_verdicts"@);
            let lead = html_text(headline(verdict));
            page(source, verdict, version, now, raw) == filled(
                seq![
                    PAGE_TITLE@,
                    PAGE_STYLE@,
                    PAGE_BADGE@,
                    PAGE_HEADLINE@,
                    PAGE_SOURCE@,
                    PAGE_EGRESS@,
                    PAGE_RED@,
                    PAGE_TENANT@,
                    PAGE_VERDICTS@,
                    PAGE_CARDS@,
                    PAGE_RAW@,
                    PAGE_VERSION@,
                    PAGE_TIME@,
                    PAGE_END@,
                ],
                seq![
                    lead,
                    if red == 0 {
                        "badge-ok"@
                    } else {
                        "badge-red"@
                    },
                    if red == 0 {
                        "OK"@
                    } else {
                        "RED"@
                    },
                    lead,
                    html_text(source),
                    decimal(verdict.get_count("receipts_ingested"@) as nat),
                    decimal(red as nat),
                    html_text(verdict.get_text_or("tenant_id"@, "(unknown)"@)),
                    decimal(verdict.get_list("verdicts"@).len()),
                    cards(verdict.get_list("verdicts"@)),
                    html_text(raw),
                    version,
                    now,
                ],
            )
        }),
{
    let red = verdict.get_count("red_verdicts"@);
    let a = html_text(headline(verdict));
    let b = if red == 0 {
        "badge-ok"@
    } else {
        "badge-red"@
    };
    let c = if red == 0 {
        "OK"@
    } else {
        "RED"@
    };
    let e = html_text(source);
    let f = decimal(verdict.get_count("receipts_ingested"@) as nat);
    let g = decimal(red as nat);
    let h = html_text(verdict.get_text_or("tenant_id"@, "(unknown)"@));
    let i = decimal(verdict.get_list("verdicts"@).len());
    let j = cards(verdict.get_list("verdicts"@));
    let k = html_text(raw);
    let q0 = seq![PAGE_TITLE@];
    let q1 = q0.push(PAGE_STYLE@);
    let q2 = q1.push(PAGE_BADGE@);
    let q3 = q2.push(PAGE_HEADLINE@);
    let q4 = q3.push(PAGE_SOURCE@);
    let q5 = q4.push(PAGE_EGRESS@);
    let q6 = q5.push(PAGE_RED@);
    let q7 = q6.push(PAGE_TENANT@);
    let q8 = q7.push(PAGE_VERDICTS@);
    let q9 = q8.push(PAGE_CARDS@);
    let q10 = q9.push(PAGE_RAW@);
    let q11 = q10.push(PAGE_VERSION@);
    let q12 = q11.push(PAGE_TIME@);
    let q13 = q12.push(PAGE_END@);
    let p0 = Seq::<Seq<char>>::empty();
    let p1 = p0.push(a);
    let p2 = p1.push(b);
    let p3 = p2.push(c);
    let p4 = p3.push(a);
    let p5 = p4.push(e);
    let p6 = p5.push(f);
    let p7 = p6.push(g);
    let p8 = p7.push(h);
    let p9 = p8.push(i);
    let p10 = p9.push(j);
    let p11 = p10.push(k);
    let p12 = p11.push(version);
    let p13 = p12.push(now);
    lemma_filled(q0, p0, a, PAGE_STYLE@);
    lemma_filled(q1, p1, b, PAGE_BADGE@);
    lemma_filled(q2, p2, c, PAGE_HEADLINE@);
    lemma_filled(q3, p3, a, PAGE_SOURCE@);
    lemma_filled(q4, p4, e, PAGE_EGRESS@);
    lemma_filled(q5, p5, f, PAGE_RED@);
    lemma_filled(q6, p6, g, PAGE_TENANT@);
    lemma_filled(q7, p7, h, PAGE_VERDICTS@);
    lemma_filled(q8, p8, i, PAGE_CARDS@);
    lemma_filled(q9, p9, j, PAGE_RAW@);
    lemma_filled(q10, p10, k, PAGE_VERSION@);
    lemma_filled(q11, p11, version, PAGE_TIME@);
    lemma_filled(q12, p12, now, PAGE_END@);
    assert(q13 =~= seq![
        PAGE_TITLE@,
        PAGE_STYLE@,
        PAGE_BADGE@,
        PAGE_HEADLINE@,
        PAGE_SOURCE@,
        PAGE_EGRESS@,
        PAGE_RED@,
        PAGE_TENANT@,
        PAGE_VERDICTS@,
        PAGE_CARDS@,
        PAGE_RAW@,
        PAGE_VERSION@,
        PAGE_TIME@,
        PAGE_END@,
    ]);
    assert(p13 =~= seq![a, b, c, a, e, f, g, h, i, j, k, version, now]);
}

/// A report leads with the reason of the first verdict, in full, where it has one.
pub proof fn law_the_first_reason_leads(verdict: JsonView)
    ensures
        ({
            let verdicts = verdict.get_list("verdicts"@);
            let first = if verdicts.len() > 0 {
                verdicts[0].get_text("binding_reason"@)
            } else {
                None
            };
            match first {
                Some(reason) => headline(verdict) == reason,
                None => headline(verdict) == if verdict.get_count("red_verdicts"@) == 0 {
                    "No red verdicts; closure walked clean."@
                } else {
                    "Cross-zone composition detected."@
                },
            }
        }),
{
}

/// The summary line shows the label, the status and both counts in full, whatever they are.
pub proof fn law_summary_lines_are_filled_in(label: Seq<char>, status: u16, verdict: JsonView)
    ensures
        ({
            let red = verdict.get_count("red_verdicts"@);
            &&& summary(label, status, verdict).len() > 0
            &&& summary(label, status, verdict)[0] == filled(
                seq!["  "@, " "@, "  status="@, " egress="@, " red="@, Seq::empty()],
                seq![
                    if status < 200 || status >= 300 {
                        "✗ "@
                    } else if red == 0 {
                        "✓ "@
                    } else {
                        "🔴"@
                    },
                    label,
                    decimal(status as nat),
                    decimal(verdict.get_count("receipts_ingested"@) as nat),
                    decimal(red as nat),
                ],
            )
        }),
{
    let red = verdict.get_count("red_verdicts"@);
    let a = mark(status, red);
    let c = decimal(status as nat);
    let d = decimal(verdict.get_count("receipts_ingested"@) as nat);
    let e = decimal(red as nat);
    let q0 = seq!["  "@];
    let q1 = q0.push(" "@);
    let q2 = q1.push("  status="@);
    let q3 = q2.push(" egress="@);
    let q4 = q3.push(" red="@);
    let q5 = q4.push(Seq::empty());
    let p0 = Seq::<Seq<char>>::empty();
    let p1 = p0.push(a);
    let p2 = p1.push(label);
    let p3 = p2.push(c);
    let p4 = p3.push(d);
    let p5 = p4.push(e);
    lemma_filled(q0, p0, a, " "@);
    lemma_filled(q1, p1, label, "  status="@);
    lemma_filled(q2, p2, c, " egress="@);
    lemma_filled(q3, p3, d, " red="@);
    lemma_filled(q4, p4, e, Seq::empty());
    assert(q5 =~= seq!["  "@, " "@, "  status="@, " egress="@, " red="@, Seq::empty()]);
    assert(p5 =~= seq![a, label, c, d, e]);
    assert(filled(q5, p5) =~= summary_line(label, status, verdict));
}

/// Where some verdicts are red, the first three of all have a line each, with reason and risk in
/// full, whatever the status is; where none are, there are no such lines.
pub proof fn law_up_to_three_verdicts_are_listed(
    label: Seq<char>,
    status: u16,
    verdict: JsonView,
    i: int,
)
    ensures
        ({
            let lines = summary(label, status, verdict);
            let verdicts = verdict.get_list("verdicts"@);
            let listed = if verdict.get_count("red_verdicts"@) == 0 {
                0
            } else if verdicts.len() >= 3 {
                3
            } else {
                verdicts.len() as int
            };
            &&& lines.len() == 1 + listed
            &&& 0 <= i < listed ==> lines[1 + i] == "       • "@ + verdicts[i].get_text_or(
                "binding_reason"@,
                "(no binding)"@,
            ) + " / "@ + verdicts[i].get_text_or("risk"@, "?"@)
        }),
{
}

/// The lines on a response are about what its body holds, whatever that is; of a body that is no
/// JSON nothing is told but that nothing was counted.
pub proof fn law_lines_are_about_the_body(v: JsonView, name: Seq<char>)
    ensures
        body_or_empty(Some(v)) == v,
        body_or_empty(None).get(name) is None,
        body_or_empty(None).get_count(name) == 0,
        body_or_empty(None).get_list(name).len() == 0,
{
}

} // verus!
