//! Pages for people: a run, the comparison of two runs, and the choice of runs to compare.
use crate::clock::{rfc3339, to_rfc3339};
use crate::coverage::{CoverageSummary, ProfileArtifact};
use crate::diff::{
    CoverageDiff, CpuDiff, DatabaseDiff, HostDiff, HttpDiff, NumericDiff, RunDiff, TransitionDiff,
};
use crate::model::{on_calendar, CollectorResult, Transition};
use crate::number::{apply, arithmetic, is_arithmetic, Number, Op};
use crate::numeral::{is_writer, write_number, written};
use crate::report::{CpuSummary, DatabaseSummary, HostSummary, HttpRouteSummary, RunReport};
use crate::runner::{last_bytes, tail_of};
use crate::storage::RunSummary;
use crate::text::{
    append_str, chars_of, decimal, decimal_of, glue2, glue3, glue5, join, replace, replaced,
    signed_decimal, signed_decimal_of, starts, string_of, texts,
};
use vstd::prelude::*;

verus! {

pub const REPORT_0: &'static str =
    "<!doctype html><html lang=\"ja\"><head><meta charset=\"utf-8\"><meta name=\"viewport\" content=\"width=device-width,initial-scale=1\"><title>";

pub const REPORT_1: &'static str =
    "</title><style>\n:root{--bg:#0b1020;--panel:#131b2e;--text:#edf2ff;--muted:#9cabc7;--line:#293653;--ok:#65d69e;--bad:#ff7d8b;--accent:#7bb4ff}*{box-sizing:border-box}body{margin:0;background:var(--bg);color:var(--text);font:14px/1.5 system-ui,sans-serif}main{max-width:1280px;margin:auto;padding:28px}h1{font-size:24px;margin:0 0 20px}h2{font-size:16px;margin:0 0 12px}.grid{display:grid;grid-template-columns:repeat(auto-fit,minmax(180px,1fr));gap:12px;margin-bottom:20px}.card,section{background:var(--panel);border:1px solid var(--line);border-radius:10px;padding:16px}.label{color:var(--muted);font-size:12px}.value{font-size:22px;font-weight:700}section{margin:12px 0;overflow:auto}table{width:100%;border-collapse:collapse;white-space:nowrap}th,td{padding:8px 10px;text-align:right;border-bottom:1px solid var(--line)}th:first-child,td:first-child,th:nth-child(2),td:nth-child(2){text-align:left}th{color:var(--muted);font-size:12px}code{color:var(--accent)}\n</style></head><body><main><h1>";

pub const REPORT_2: &'static str =
    "</h1><div class=\"grid\"><div class=\"card\"><div class=\"label\">STATE</div><div class=\"value\">";

pub const REPORT_3: &'static str =
    "</div></div><div class=\"card\"><div class=\"label\">SCORE</div><div class=\"value\">";

pub const REPORT_4: &'static str =
    "</div></div><div class=\"card\"><div class=\"label\">HTTP ROUTES</div><div class=\"value\">";

pub const REPORT_5: &'static str =
    "</div></div><div class=\"card\"><div class=\"label\">METRICS</div><div class=\"value\">";

pub const REPORT_6: &'static str =
    "</div></div></div><section><h2>Coverage</h2><table><thead><tr><th>STATUS</th><th>SECTION</th><th>NODE</th><th>COLLECTOR</th><th>PHASE</th><th>MISSING METRICS</th></tr></thead><tbody>";

pub const REPORT_7: &'static str =
    "</tbody></table></section><section><h2>HTTP routes · total time</h2><table><thead><tr><th>METHOD</th><th>ROUTE</th><th>COUNT</th><th>TOTAL ms</th><th>AVG ms</th><th>P95 ms</th><th>P99 ms</th><th>ERROR %</th></tr></thead><tbody>";

pub const REPORT_8: &'static str =
    "</tbody></table></section><section><h2>Database queries · total time</h2><table><thead><tr><th>NODE</th><th>ENGINE</th><th>DIGEST</th><th>CALLS</th><th>TOTAL ms</th><th>AVG ms</th><th>P95 ms</th><th>ROWS/CALL</th></tr></thead><tbody>";

pub const REPORT_9: &'static str =
    "</tbody></table></section><section><h2>CPU symbols · sample share</h2><table><thead><tr><th>NODE</th><th>PROCESS</th><th>BINARY</th><th>SYMBOL</th><th>SAMPLE %</th></tr></thead><tbody>";

pub const REPORT_10: &'static str =
    "</tbody></table></section><section><h2>Host metrics</h2><table><thead><tr><th>NODE</th><th>METRIC</th><th>TARGET</th><th>AVERAGE</th><th>PEAK</th><th>UNIT</th><th>PEAK AT</th></tr></thead><tbody>";

pub const REPORT_11: &'static str =
    "</tbody></table></section><section><h2>Profile artifacts</h2><table><thead><tr><th>STATUS</th><th>KIND</th><th>NODE</th><th>PATH</th><th>ERROR</th></tr></thead><tbody>";

pub const REPORT_12: &'static str =
    "</tbody></table></section><section><h2>Transitions</h2><table><thead><tr><th>FROM</th><th>TO</th><th>COUNT</th><th>P50 ms</th><th>P95 ms</th></tr></thead><tbody>";

pub const REPORT_13: &'static str =
    "</tbody></table></section><section><h2>Collectors</h2><table><thead><tr><th>STATUS</th><th>NAME</th><th>NODE</th><th>ERROR</th></tr></thead><tbody>";

pub const REPORT_14: &'static str =
    "</tbody></table></section><p class=\"label\">Raw evidence: <code>";

pub const REPORT_15: &'static str =
    "</code></p><script type=\"application/json\" id=\"isuscope-report\">";

pub const REPORT_16: &'static str =
    "</script></main></body></html>";

pub const DIFF_0: &'static str =
    "<!doctype html><html lang=\"en\"><head><meta charset=\"utf-8\"><meta name=\"viewport\" content=\"width=device-width,initial-scale=1\"><title>";

pub const DIFF_1: &'static str =
    "</title><style>\n:root{color-scheme:dark;font-family:ui-monospace,SFMono-Regular,Menlo,monospace;background:#0b0f14;color:#d8dee9}body{margin:0}main{max-width:1500px;margin:auto;padding:24px}a{color:#88c0d0}.grid{display:grid;grid-template-columns:repeat(auto-fit,minmax(180px,1fr));gap:12px}.card,section{background:#121923;border:1px solid #263241;border-radius:10px;padding:16px;margin:14px 0}.label{color:#8c9bab;font-size:12px}.value{font-size:24px;font-weight:700}table{width:100%;border-collapse:collapse;font-size:12px}th,td{text-align:left;padding:7px;border-bottom:1px solid #263241;vertical-align:top}th{color:#8c9bab}code{white-space:pre-wrap}</style></head><body><main><p><a href=\"/diff\">choose runs</a> · <a href=\"/\">latest report</a></p><h1>";

pub const DIFF_2: &'static str =
    "</h1><div class=\"grid\"><div class=\"card\"><div class=\"label\">BASE SCORE</div><div class=\"value\">";

pub const DIFF_3: &'static str =
    "</div></div><div class=\"card\"><div class=\"label\">CANDIDATE SCORE</div><div class=\"value\">";

pub const DIFF_4: &'static str =
    "</div></div><div class=\"card\"><div class=\"label\">DELTA</div><div class=\"value\">";

pub const DIFF_5: &'static str =
    "</div></div><div class=\"card\"><div class=\"label\">DELTA %</div><div class=\"value\">";

pub const DIFF_6: &'static str =
    "</div></div></div><section><h2>Coverage</h2><table><thead><tr><th>PRESENCE</th><th>SECTION</th><th>NODE</th><th>COLLECTOR</th><th>PHASE</th><th>STATUS</th></tr></thead><tbody>";

pub const DIFF_7: &'static str =
    "</tbody></table></section><section><h2>HTTP</h2><table><thead><tr><th>PRESENCE</th><th>NODE</th><th>METHOD</th><th>ROUTE</th><th>TOTAL ms</th><th>COUNT</th><th>P95 ms</th></tr></thead><tbody>";

pub const DIFF_8: &'static str =
    "</tbody></table></section><section><h2>Database</h2><table><thead><tr><th>PRESENCE</th><th>NODE</th><th>ENGINE</th><th>DIGEST</th><th>TOTAL ms</th><th>CALLS</th></tr></thead><tbody>";

pub const DIFF_9: &'static str =
    "</tbody></table></section><section><h2>CPU symbols</h2><table><thead><tr><th>PRESENCE</th><th>NODE</th><th>PROCESS</th><th>SYMBOL</th><th>SAMPLE %</th></tr></thead><tbody>";

pub const DIFF_10: &'static str =
    "</tbody></table></section><section><h2>Host</h2><table><thead><tr><th>PRESENCE</th><th>NODE</th><th>METRIC</th><th>TARGET</th><th>AVERAGE</th><th>PEAK</th></tr></thead><tbody>";

pub const DIFF_11: &'static str =
    "</tbody></table></section><section><h2>Transitions</h2><table><thead><tr><th>PRESENCE</th><th>FROM</th><th>TO</th><th>COUNT</th><th>P95 ms</th></tr></thead><tbody>";

pub const DIFF_12: &'static str =
    "</tbody></table></section><script type=\"application/json\" id=\"isuscope-diff\">";

pub const DIFF_13: &'static str =
    "</script></main></body></html>";

pub const FORM_0: &'static str =
    "<!doctype html><html lang=\"en\"><head><meta charset=\"utf-8\"><meta name=\"viewport\" content=\"width=device-width,initial-scale=1\"><title>isuscope diff</title><style>:root{color-scheme:dark;font-family:ui-monospace,SFMono-Regular,Menlo,monospace;background:#0b0f14;color:#d8dee9}main{max-width:760px;margin:60px auto;padding:24px}form{display:grid;gap:16px;background:#121923;border:1px solid #263241;border-radius:10px;padding:20px}select,button{font:inherit;padding:10px;background:#0b0f14;color:#d8dee9;border:1px solid #46566b;border-radius:6px}a{color:#88c0d0}</style></head><body><main><p><a href=\"/\">latest report</a></p><h1>Compare runs</h1><form action=\"/diff\" method=\"get\"><label>Base<select name=\"base\" required>";

pub const FORM_1: &'static str =
    "</select></label><label>Candidate<select name=\"candidate\" required>";

pub const FORM_2: &'static str =
    "</select></label><button type=\"submit\">Compare</button></form></main></body></html>";


/// A text as it stands in a page, where it can neither open nor close anything.
pub open spec fn escaped(value: Seq<char>) -> Seq<char> {
    let a = replace(value, "&"@, "&amp;"@);
    let b = replace(a, "<"@, "&lt;"@);
    let c = replace(b, ">"@, "&gt;"@);
    replace(c, "\""@, "&quot;"@)
}

fn swap_text(s: &[char], from: &str, to: &str) -> (r: Vec<char>)
    ensures
        r@ == replace(s@, from@, to@),
{
    replaced(s, chars_of(from).as_slice(), chars_of(to).as_slice())
}

pub fn escape(value: &str) -> (r: String)
    ensures
        r@ == escaped(value@),
{
    let a = swap_text(chars_of(value).as_slice(), "&", "&amp;");
    let b = swap_text(a.as_slice(), "<", "&lt;");
    let c = swap_text(b.as_slice(), ">", "&gt;");
    let d = swap_text(c.as_slice(), "\"", "&quot;");
    string_of(d.as_slice())
}

/// Replacing a character takes it away, and brings in only what it is replaced by.
proof fn replaced_lacks(s: Seq<char>, from: Seq<char>, to: Seq<char>, c: char)
    requires
        from.len() == 1,
        !to.contains(c),
        from[0] == c || !s.contains(c),
    ensures
        !replace(s, from, to).contains(c),
    decreases s.len(),
{
    let out = replace(s, from, to);
    if s.len() > 0 {
        let rest = s.skip(1);
        if !s.contains(c) && rest.contains(c) {
            let i = choose|i: int| 0 <= i < rest.len() && rest[i] == c;
            assert(s[i + 1] == c);
        }
        replaced_lacks(rest, from, to, c);
        let tail = replace(rest, from, to);
        if out.contains(c) {
            let i = choose|i: int| 0 <= i < out.len() && out[i] == c;
            if starts(s, from) {
                if i < to.len() {
                    assert(to[i] == c);
                } else {
                    assert(tail[i - to.len()] == c);
                }
            } else {
                assert(!(s[0] == from[0])) by {
                    if s[0] == from[0] {
                        assert(s.take(1) == from);
                    }
                }
                if i == 0 {
                    assert(s[0] == c);
                    assert(s.contains(c));
                } else {
                    assert(tail[i - 1] == c);
                }
            }
        }
    }
}

/// What is escaped holds no character that opens or closes a tag or an attribute.
pub proof fn escaped_text_is_inert(value: Seq<char>)
    ensures
        !escaped(value).contains('<'),
        !escaped(value).contains('>'),
        !escaped(value).contains('"'),
{
    reveal_strlit("&");
    reveal_strlit("<");
    reveal_strlit(">");
    reveal_strlit("\"");
    reveal_strlit("&amp;");
    reveal_strlit("&lt;");
    reveal_strlit("&gt;");
    reveal_strlit("&quot;");
    let a = replace(value, "&"@, "&amp;"@);
    let b = replace(a, "<"@, "&lt;"@);
    let c = replace(b, ">"@, "&gt;"@);
    replaced_lacks(a, "<"@, "&lt;"@, '<');
    replaced_lacks(b, ">"@, "&gt;"@, '<');
    replaced_lacks(c, "\""@, "&quot;"@, '<');
    replaced_lacks(b, ">"@, "&gt;"@, '>');
    replaced_lacks(c, "\""@, "&quot;"@, '>');
    replaced_lacks(c, "\""@, "&quot;"@, '"');
}

/// JSON as it stands in a script of a page.
pub open spec fn embedded_json(json: Seq<char>) -> Seq<char> {
    replace(json, "<"@, "\\u003c"@)
}

/// Embedded JSON cannot end the script that it stands in.
pub proof fn embedded_json_stays_inside(json: Seq<char>)
    ensures
        !embedded_json(json).contains('<'),
{
    reveal_strlit("<");
    reveal_strlit("\\u003c");
    replaced_lacks(json, "<"@, "\\u003c"@, '<');
}

fn embed(json: &str) -> (r: String)
    ensures
        r@ == embedded_json(json@),
{
    string_of(swap_text(chars_of(json).as_slice(), "<", "\\u003c").as_slice())
}

/// The end of an identifier, or all of it where it cannot be cut there.
pub open spec fn short_or_whole(id: Seq<char>) -> Seq<char> {
    match last_bytes(id, 8) {
        Some(tail) => tail,
        None => id,
    }
}

pub fn short(id: &str) -> (r: String)
    ensures
        r@ == short_or_whole(id@),
{
    match tail_of(chars_of(id).as_slice(), 8) {
        Some(tail) => string_of(tail.as_slice()),
        None => id.to_owned(),
    }
}

/// The cells of a row.
pub open spec fn cells_text(cells: Seq<Seq<char>>) -> Seq<char>
    decreases cells.len(),
{
    if cells.len() == 0 {
        Seq::empty()
    } else {
        cells_text(cells.drop_last()) + "<td>"@ + cells.last() + "</td>"@
    }
}

pub open spec fn row_text(cells: Seq<Seq<char>>) -> Seq<char> {
    "<tr>"@ + cells_text(cells) + "</tr>"@
}

fn table_row(cells: &Vec<String>) -> (r: String)
    ensures
        r@ == row_text(texts(cells@)),
{
    let ghost all = texts(cells@);
    let mut out = chars_of("<tr>");
    let mut i: usize = 0;
    assert(all.take(0) == Seq::<Seq<char>>::empty());
    assert("<tr>"@ + cells_text(all.take(0)) == "<tr>"@);
    while i < cells.len()
        invariant
            i <= cells@.len(),
            all == texts(cells@),
            out@ == "<tr>"@ + cells_text(all.take(i as int)),
        decreases cells.len() - i,
    {
        let ghost head = cells_text(all.take(i as int));
        assert(all[i as int] == cells@[i as int]@);
        append_str(&mut out, "<td>");
        append_str(&mut out, cells[i].as_str());
        append_str(&mut out, "</td>");
        assert(all.take(i + 1).drop_last() == all.take(i as int));
        assert(all.take(i + 1).last() == all[i as int]);
        assert("<tr>"@ + head + "<td>"@ + all[i as int] + "</td>"@ == "<tr>"@ + (head + "<td>"@
            + all[i as int] + "</td>"@));
        i += 1;
    }
    assert(all.take(i as int) == all);
    append_str(&mut out, "</tr>");
    string_of(out.as_slice())
}

/// The rows of a table.
pub open spec fn rows<T>(items: Seq<T>, row: spec_fn(T) -> Seq<char>) -> Seq<char>
    decreases items.len(),
{
    if items.len() == 0 {
        Seq::empty()
    } else {
        rows(items.drop_last(), row) + row(items.last())
    }
}

fn make_rows<T, F: Fn(&T) -> String>(items: &Vec<T>, make: &F, Ghost(row): Ghost<
    spec_fn(T) -> Seq<char>,
>) -> (r: String)
    requires
        forall|i: int| 0 <= i < items@.len() ==> call_requires(*make, (&#[trigger] items@[i],)),
        forall|t: &T, out: String| call_ensures(*make, (t,), out) ==> out@ == row(*t),
    ensures
        r@ == rows(items@, row),
{
    let mut out: Vec<char> = Vec::new();
    let mut i: usize = 0;
    assert(items@.take(0) == Seq::<T>::empty());
    while i < items.len()
        invariant
            i <= items@.len(),
            forall|j: int| 0 <= j < items@.len() ==> call_requires(*make, (&#[trigger] items@[j],)),
            forall|t: &T, out: String| call_ensures(*make, (t,), out) ==> out@ == row(*t),
            out@ == rows(items@.take(i as int), row),
        decreases items.len() - i,
    {
        let item = &items[i];
        assert(*item == items@[i as int]);
        let line = make(item);
        append_str(&mut out, line.as_str());
        assert(items@.take(i + 1).drop_last() == items@.take(i as int));
        assert(items@.take(i + 1).last() == *item);
        i += 1;
    }
    assert(items@.take(i as int) == items@);
    string_of(out.as_slice())
}

/// A number with some decimals, or a dash.
pub open spec fn optional_text(
    g: spec_fn(Number, u32) -> Seq<char>,
    value: Option<Number>,
    decimals: u32,
) -> Seq<char> {
    match value {
        Some(n) => g(n, decimals),
        None => "-"@,
    }
}

fn optional<S: Fn(Number, u32) -> String>(value: Option<Number>, decimals: u32, show: &S) -> (r:
    String)
    requires
        is_writer(*show),
    ensures
        r@ == optional_text(written(*show), value, decimals),
{
    match value {
        Some(n) => write_number(show, n, decimals),
        None => "-".to_owned(),
    }
}

/// A share in percent.
pub open spec fn percent_text(
    f: spec_fn(Op) -> Number,
    g: spec_fn(Number, u32) -> Seq<char>,
    value: Option<Number>,
) -> Seq<char> {
    match value {
        Some(n) => g(f(Op::Multiply(n, f(Op::Integer(100)))), 2),
        None => "-"@,
    }
}

fn percent<F: Fn(Op) -> Number, S: Fn(Number, u32) -> String>(
    value: Option<Number>,
    compute: &F,
    show: &S,
) -> (r: String)
    requires
        is_arithmetic(*compute),
        is_writer(*show),
    ensures
        r@ == percent_text(arithmetic(*compute), written(*show), value),
{
    match value {
        Some(n) => {
            let hundred = apply(compute, Op::Integer(100));
            let share = apply(compute, Op::Multiply(n, hundred));
            write_number(show, share, 2)
        },
        None => "-".to_owned(),
    }
}

pub open spec fn integer_text(value: Option<i64>) -> Seq<char> {
    match value {
        Some(n) => signed_decimal(n as int),
        None => "-"@,
    }
}

fn integer(value: Option<i64>) -> (r: String)
    ensures
        r@ == integer_text(value),
{
    match value {
        Some(n) => string_of(signed_decimal_of(n).as_slice()),
        None => "-".to_owned(),
    }
}

/// A number with a sign in front, whatever it is.
pub open spec fn signed_text(g: spec_fn(Number, u32) -> Seq<char>, n: Number) -> Seq<char> {
    if n.is_nan_spec() || n.bits >= 0x8000_0000_0000_0000 {
        g(n, 2)
    } else {
        "+"@ + g(n, 2)
    }
}

fn signed<S: Fn(Number, u32) -> String>(n: Number, show: &S) -> (r: String)
    requires
        is_writer(*show),
    ensures
        r@ == signed_text(written(*show), n),
{
    let text = write_number(show, n, 2);
    if n.is_nan() || n.bits >= 0x8000_0000_0000_0000 {
        text
    } else {
        glue2("+", text.as_str())
    }
}

pub open spec fn percent_change(g: spec_fn(Number, u32) -> Seq<char>, value: Option<Number>) -> Seq<
    char,
> {
    match value {
        Some(n) => signed_text(g, n) + "%"@,
        None => "-"@,
    }
}

fn change_in_percent<S: Fn(Number, u32) -> String>(value: Option<Number>, show: &S) -> (r: String)
    requires
        is_writer(*show),
    ensures
        r@ == percent_change(written(*show), value),
{
    match value {
        Some(n) => glue2(signed(n, show).as_str(), "%"),
        None => "-".to_owned(),
    }
}

/// A number before and after, and the difference.
pub open spec fn change_text(g: spec_fn(Number, u32) -> Seq<char>, d: NumericDiff) -> Seq<char> {
    optional_text(g, d.base, 2) + " → "@ + optional_text(g, d.candidate, 2) + " ("@ + (
    match d.delta {
        Some(n) => signed_text(g, n),
        None => "-"@,
    }) + ")"@
}

fn numeric<S: Fn(Number, u32) -> String>(d: &NumericDiff, show: &S) -> (r: String)
    requires
        is_writer(*show),
    ensures
        r@ == change_text(written(*show), *d),
{
    let base = optional(d.base, 2, show);
    let candidate = optional(d.candidate, 2, show);
    let delta = match d.delta {
        Some(n) => signed(n, show),
        None => "-".to_owned(),
    };
    let head = glue5(base.as_str(), " → ", candidate.as_str(), " (", delta.as_str());
    glue2(head.as_str(), ")")
}

pub open spec fn text_or(value: Option<String>, other: Seq<char>) -> Seq<char> {
    match value {
        Some(text) => text@,
        None => other,
    }
}

fn escape_or(value: &Option<String>, other: &str) -> (r: String)
    ensures
        r@ == escaped(text_or(*value, other@)),
{
    match value {
        Some(text) => escape(text.as_str()),
        None => escape(other),
    }
}

fn add_cell(cells: &mut Vec<String>, text: String)
    ensures
        texts(final(cells)@) == texts(old(cells)@).push(text@),
{
    let ghost was = cells@;
    cells.push(text);
    assert(texts(cells@) == texts(was).push(text@));
}

pub open spec fn collector_row() -> spec_fn(CollectorResult) -> Seq<char> {
    |c: CollectorResult|
        row_text(
            seq![
                escaped(c.status@),
                escaped(c.name@),
                escaped(text_or(c.node, "local"@)),
                escaped(text_or(c.error, ""@)),
            ],
        )
}

fn make_collector_row(c: &CollectorResult) -> (r: String)
    ensures
        r@ == collector_row()(*c),
{
    let mut cells: Vec<String> = Vec::new();
    assert(texts(cells@) == Seq::<Seq<char>>::empty());
    add_cell(&mut cells, escape(c.status.as_str()));
    add_cell(&mut cells, escape(c.name.as_str()));
    add_cell(&mut cells, escape_or(&c.node, "local"));
    add_cell(&mut cells, escape_or(&c.error, ""));
    assert(texts(cells@) == seq![
        escaped(c.status@),
        escaped(c.name@),
        escaped(text_or(c.node, "local"@)),
        escaped(text_or(c.error, ""@)),
    ]);
    table_row(&cells)
}

pub open spec fn route_row(
    f: spec_fn(Op) -> Number,
    g: spec_fn(Number, u32) -> Seq<char>,
) -> spec_fn(HttpRouteSummary) -> Seq<char> {
    |r: HttpRouteSummary|
        row_text(
            seq![
                escaped(r.method@),
                escaped(r.route@),
                g(r.count, 0),
                optional_text(g, r.total_ms, 2),
                optional_text(g, r.avg_ms, 2),
                optional_text(g, r.p95_ms, 2),
                optional_text(g, r.p99_ms, 2),
                percent_text(f, g, r.error_rate),
            ],
        )
}

fn make_route_row<F: Fn(Op) -> Number, S: Fn(Number, u32) -> String>(
    route: &HttpRouteSummary,
    compute: &F,
    show: &S,
) -> (r: String)
    requires
        is_arithmetic(*compute),
        is_writer(*show),
    ensures
        r@ == route_row(arithmetic(*compute), written(*show))(*route),
{
    let ghost f = arithmetic(*compute);
    let ghost g = written(*show);
    let mut cells: Vec<String> = Vec::new();
    assert(texts(cells@) == Seq::<Seq<char>>::empty());
    add_cell(&mut cells, escape(route.method.as_str()));
    add_cell(&mut cells, escape(route.route.as_str()));
    add_cell(&mut cells, write_number(show, route.count, 0));
    add_cell(&mut cells, optional(route.total_ms, 2, show));
    add_cell(&mut cells, optional(route.avg_ms, 2, show));
    add_cell(&mut cells, optional(route.p95_ms, 2, show));
    add_cell(&mut cells, optional(route.p99_ms, 2, show));
    add_cell(&mut cells, percent(route.error_rate, compute, show));
    assert(texts(cells@) == seq![
        escaped(route.method@),
        escaped(route.route@),
        g(route.count, 0),
        optional_text(g, route.total_ms, 2),
        optional_text(g, route.avg_ms, 2),
        optional_text(g, route.p95_ms, 2),
        optional_text(g, route.p99_ms, 2),
        percent_text(f, g, route.error_rate),
    ]);
    table_row(&cells)
}

pub open spec fn coverage_row() -> spec_fn(CoverageSummary) -> Seq<char> {
    |c: CoverageSummary|
        row_text(
            seq![
                escaped(c.status@),
                escaped(c.section@),
                escaped(c.node@),
                escaped(c.collector@),
                escaped(c.phase@),
                escaped(join(texts(c.missing_metrics@), ", "@)),
            ],
        )
}

fn make_coverage_row(c: &CoverageSummary) -> (r: String)
    ensures
        r@ == coverage_row()(*c),
{
    let missing = crate::runner::joined_texts(&c.missing_metrics, ", ");
    let mut cells: Vec<String> = Vec::new();
    assert(texts(cells@) == Seq::<Seq<char>>::empty());
    add_cell(&mut cells, escape(c.status.as_str()));
    add_cell(&mut cells, escape(c.section.as_str()));
    add_cell(&mut cells, escape(c.node.as_str()));
    add_cell(&mut cells, escape(c.collector.as_str()));
    add_cell(&mut cells, escape(c.phase.as_str()));
    add_cell(&mut cells, escape(missing.as_str()));
    assert(texts(cells@) == seq![
        escaped(c.status@),
        escaped(c.section@),
        escaped(c.node@),
        escaped(c.collector@),
        escaped(c.phase@),
        escaped(missing@),
    ]);
    table_row(&cells)
}

pub open spec fn query_row(g: spec_fn(Number, u32) -> Seq<char>) -> spec_fn(DatabaseSummary) -> Seq<
    char,
> {
    |q: DatabaseSummary|
        row_text(
            seq![
                escaped(q.node@),
                escaped(q.engine@),
                escaped(q.digest@),
                g(q.calls, 0),
                g(q.total_ms, 0),
                optional_text(g, q.avg_ms, 2),
                optional_text(g, q.p95_ms, 2),
                optional_text(g, q.rows_examined_per_call, 2),
            ],
        )
}

fn make_query_row<S: Fn(Number, u32) -> String>(q: &DatabaseSummary, show: &S) -> (r: String)
    requires
        is_writer(*show),
    ensures
        r@ == query_row(written(*show))(*q),
{
    let ghost g = written(*show);
    let mut cells: Vec<String> = Vec::new();
    assert(texts(cells@) == Seq::<Seq<char>>::empty());
    add_cell(&mut cells, escape(q.node.as_str()));
    add_cell(&mut cells, escape(q.engine.as_str()));
    add_cell(&mut cells, escape(q.digest.as_str()));
    add_cell(&mut cells, write_number(show, q.calls, 0));
    add_cell(&mut cells, write_number(show, q.total_ms, 0));
    add_cell(&mut cells, optional(q.avg_ms, 2, show));
    add_cell(&mut cells, optional(q.p95_ms, 2, show));
    add_cell(&mut cells, optional(q.rows_examined_per_call, 2, show));
    assert(texts(cells@) == seq![
        escaped(q.node@),
        escaped(q.engine@),
        escaped(q.digest@),
        g(q.calls, 0),
        g(q.total_ms, 0),
        optional_text(g, q.avg_ms, 2),
        optional_text(g, q.p95_ms, 2),
        optional_text(g, q.rows_examined_per_call, 2),
    ]);
    table_row(&cells)
}

pub open spec fn symbol_row(g: spec_fn(Number, u32) -> Seq<char>) -> spec_fn(CpuSummary) -> Seq<char> {
    |s: CpuSummary|
        row_text(
            seq![
                escaped(s.node@),
                escaped(s.process@),
                escaped(s.binary@),
                escaped(s.symbol@),
                g(s.sample_percent, 2),
            ],
        )
}

fn make_symbol_row<S: Fn(Number, u32) -> String>(s: &CpuSummary, show: &S) -> (r: String)
    requires
        is_writer(*show),
    ensures
        r@ == symbol_row(written(*show))(*s),
{
    let ghost g = written(*show);
    let mut cells: Vec<String> = Vec::new();
    assert(texts(cells@) == Seq::<Seq<char>>::empty());
    add_cell(&mut cells, escape(s.node.as_str()));
    add_cell(&mut cells, escape(s.process.as_str()));
    add_cell(&mut cells, escape(s.binary.as_str()));
    add_cell(&mut cells, escape(s.symbol.as_str()));
    add_cell(&mut cells, write_number(show, s.sample_percent, 2));
    assert(texts(cells@) == seq![
        escaped(s.node@),
        escaped(s.process@),
        escaped(s.binary@),
        escaped(s.symbol@),
        g(s.sample_percent, 2),
    ]);
    table_row(&cells)
}

pub open spec fn peak_text(h: HostSummary) -> Seq<char> {
    match h.peak_at {
        Some(at) => rfc3339(at.nanos as int),
        None => "-"@,
    }
}

pub open spec fn host_row(g: spec_fn(Number, u32) -> Seq<char>) -> spec_fn(HostSummary) -> Seq<char> {
    |h: HostSummary|
        row_text(
            seq![
                escaped(h.node@),
                escaped(h.metric@),
                escaped(h.target@),
                g(h.average, 2),
                g(h.peak, 2),
                escaped(h.unit@),
                escaped(peak_text(h)),
            ],
        )
}

fn make_host_row<S: Fn(Number, u32) -> String>(h: &HostSummary, show: &S) -> (r: String)
    requires
        is_writer(*show),
        on_calendar(h.peak_at),
    ensures
        r@ == host_row(written(*show))(*h),
{
    let ghost g = written(*show);
    let peak = match h.peak_at {
        Some(at) => to_rfc3339(at),
        None => "-".to_owned(),
    };
    let mut cells: Vec<String> = Vec::new();
    assert(texts(cells@) == Seq::<Seq<char>>::empty());
    add_cell(&mut cells, escape(h.node.as_str()));
    add_cell(&mut cells, escape(h.metric.as_str()));
    add_cell(&mut cells, escape(h.target.as_str()));
    add_cell(&mut cells, write_number(show, h.average, 2));
    add_cell(&mut cells, write_number(show, h.peak, 2));
    add_cell(&mut cells, escape(h.unit.as_str()));
    add_cell(&mut cells, escape(peak.as_str()));
    assert(texts(cells@) == seq![
        escaped(h.node@),
        escaped(h.metric@),
        escaped(h.target@),
        g(h.average, 2),
        g(h.peak, 2),
        escaped(h.unit@),
        escaped(peak_text(*h)),
    ]);
    table_row(&cells)
}

/// Where an artifact is found: the unpacked one before the compressed one.
pub open spec fn artifact_path(a: ProfileArtifact) -> Seq<char> {
    match (a.expanded_path, a.canonical_path) {
        (Some(path), _) => path@,
        (None, Some(path)) => path@,
        (None, None) => "-"@,
    }
}

pub open spec fn artifact_row() -> spec_fn(ProfileArtifact) -> Seq<char> {
    |a: ProfileArtifact|
        row_text(
            seq![
                escaped(a.status@),
                escaped(a.kind@),
                escaped(a.node@),
                "<code>"@ + escaped(artifact_path(a)) + "</code>"@,
                escaped(text_or(a.error, ""@)),
            ],
        )
}

fn make_artifact_row(a: &ProfileArtifact) -> (r: String)
    ensures
        r@ == artifact_row()(*a),
{
    let path: &str = match &a.expanded_path {
        Some(path) => path.as_str(),
        None => match &a.canonical_path {
            Some(path) => path.as_str(),
            None => "-",
        },
    };
    let mut cells: Vec<String> = Vec::new();
    assert(texts(cells@) == Seq::<Seq<char>>::empty());
    add_cell(&mut cells, escape(a.status.as_str()));
    add_cell(&mut cells, escape(a.kind.as_str()));
    add_cell(&mut cells, escape(a.node.as_str()));
    add_cell(&mut cells, glue3("<code>", escape(path).as_str(), "</code>"));
    add_cell(&mut cells, escape_or(&a.error, ""));
    assert(texts(cells@) == seq![
        escaped(a.status@),
        escaped(a.kind@),
        escaped(a.node@),
        "<code>"@ + escaped(artifact_path(*a)) + "</code>"@,
        escaped(text_or(a.error, ""@)),
    ]);
    table_row(&cells)
}

pub open spec fn move_row(g: spec_fn(Number, u32) -> Seq<char>) -> spec_fn(Transition) -> Seq<char> {
    |t: Transition|
        row_text(
            seq![
                escaped(t.from_route@),
                escaped(t.to_route@),
                signed_decimal(t.count as int),
                optional_text(g, t.p50_ms, 2),
                optional_text(g, t.p95_ms, 2),
            ],
        )
}

fn make_move_row<S: Fn(Number, u32) -> String>(t: &Transition, show: &S) -> (r: String)
    requires
        is_writer(*show),
    ensures
        r@ == move_row(written(*show))(*t),
{
    let ghost g = written(*show);
    let mut cells: Vec<String> = Vec::new();
    assert(texts(cells@) == Seq::<Seq<char>>::empty());
    add_cell(&mut cells, escape(t.from_route.as_str()));
    add_cell(&mut cells, escape(t.to_route.as_str()));
    add_cell(&mut cells, string_of(signed_decimal_of(t.count).as_slice()));
    add_cell(&mut cells, optional(t.p50_ms, 2, show));
    add_cell(&mut cells, optional(t.p95_ms, 2, show));
    assert(texts(cells@) == seq![
        escaped(t.from_route@),
        escaped(t.to_route@),
        signed_decimal(t.count as int),
        optional_text(g, t.p50_ms, 2),
        optional_text(g, t.p95_ms, 2),
    ]);
    table_row(&cells)
}

pub open spec fn logs_path(report: RunReport) -> Seq<char> {
    match report.latest_logs {
        Some(path) => path@,
        None => report.run_logs@,
    }
}

/// The page of a run. `json` is the run as JSON.
pub open spec fn report_page(
    f: spec_fn(Op) -> Number,
    g: spec_fn(Number, u32) -> Seq<char>,
    report: RunReport,
    json: Seq<char>,
) -> Seq<char> {
    let title = escaped("isuscope run "@ + short_or_whole(report.run.id@));
    REPORT_0@ + title
        + REPORT_1@ + title
        + REPORT_2@ + escaped(report.run.state.name())
        + REPORT_3@ + integer_text(report.run.benchmark.score)
        + REPORT_4@ + decimal(report.http.total_count as nat)
        + REPORT_5@ + decimal(report.run.metric_count as nat)
        + REPORT_6@ + rows(report.coverage@, coverage_row())
        + REPORT_7@ + rows(report.http.items@, route_row(f, g))
        + REPORT_8@ + rows(report.database.items@, query_row(g))
        + REPORT_9@ + rows(report.cpu.items@, symbol_row(g))
        + REPORT_10@ + rows(report.host.items@, host_row(g))
        + REPORT_11@ + rows(report.artifacts@, artifact_row())
        + REPORT_12@ + rows(report.transitions.items@, move_row(g))
        + REPORT_13@ + rows(report.run.collectors@, collector_row())
        + REPORT_14@ + escaped(logs_path(report))
        + REPORT_15@ + embedded_json(json)
        + REPORT_16@
}

/// The peaks of the hosts lie in the calendar.
pub open spec fn peaks_dated(items: Seq<HostSummary>) -> bool {
    forall|i: int| 0 <= i < items.len() ==> on_calendar((#[trigger] items[i]).peak_at)
}

fn host_rows<S: Fn(Number, u32) -> String>(items: &Vec<HostSummary>, show: &S) -> (r: String)
    requires
        is_writer(*show),
        peaks_dated(items@),
    ensures
        r@ == rows(items@, host_row(written(*show))),
{
    let make = |h: &HostSummary| -> (out: String)
        requires
            on_calendar(h.peak_at),
        ensures
            out@ == host_row(written(*show))(*h),
        { make_host_row(h, show) };
    make_rows(items, &make, Ghost(host_row(written(*show))))
}

/// Writes the page of a run.
pub fn write_report<F: Fn(Op) -> Number, S: Fn(Number, u32) -> String>(
    report: &RunReport,
    json: &str,
    compute: &F,
    show: &S,
) -> (r: String)
    requires
        is_arithmetic(*compute),
        is_writer(*show),
        peaks_dated(report.host.items@),
    ensures
        r@ == report_page(arithmetic(*compute), written(*show), *report, json@),
{
    let ghost f = arithmetic(*compute);
    let ghost g = written(*show);
    let name = glue2("isuscope run ", short(report.run.id.as_str()).as_str());
    let title = escape(name.as_str());
    let state = escape(report.run.state.as_str());
    let score = integer(report.run.benchmark.score);
    let route_count = string_of(decimal_of(report.http.total_count as u64).as_slice());
    let metric_count = string_of(decimal_of(report.run.metric_count as u64).as_slice());
    let coverage = make_rows(&report.coverage, &make_coverage_row, Ghost(coverage_row()));
    let make_route = |item: &HttpRouteSummary| -> (out: String)
        ensures
            out@ == route_row(arithmetic(*compute), written(*show))(*item),
        { make_route_row(item, compute, show) };
    let routes = make_rows(&report.http.items, &make_route, Ghost(route_row(f, g)));
    let make_query = |item: &DatabaseSummary| -> (out: String)
        ensures
            out@ == query_row(written(*show))(*item),
        { make_query_row(item, show) };
    let database = make_rows(&report.database.items, &make_query, Ghost(query_row(g)));
    let make_symbol = |item: &CpuSummary| -> (out: String)
        ensures
            out@ == symbol_row(written(*show))(*item),
        { make_symbol_row(item, show) };
    let cpu = make_rows(&report.cpu.items, &make_symbol, Ghost(symbol_row(g)));
    let host = host_rows(&report.host.items, show);
    let artifacts = make_rows(&report.artifacts, &make_artifact_row, Ghost(artifact_row()));
    let make_move = |item: &Transition| -> (out: String)
        ensures
            out@ == move_row(written(*show))(*item),
        { make_move_row(item, show) };
    let transitions = make_rows(&report.transitions.items, &make_move, Ghost(move_row(g)));
    let collectors = make_rows(
        &report.run.collectors,
        &make_collector_row,
        Ghost(collector_row()),
    );
    let logs = match &report.latest_logs {
        Some(path) => escape(path.as_str()),
        None => escape(report.run_logs.as_str()),
    };
    let embedded = embed(json);
    let mut out = chars_of(REPORT_0);
    append_str(&mut out, title.as_str());
    append_str(&mut out, REPORT_1);
    append_str(&mut out, title.as_str());
    append_str(&mut out, REPORT_2);
    append_str(&mut out, state.as_str());
    append_str(&mut out, REPORT_3);
    append_str(&mut out, score.as_str());
    append_str(&mut out, REPORT_4);
    append_str(&mut out, route_count.as_str());
    append_str(&mut out, REPORT_5);
    append_str(&mut out, metric_count.as_str());
    append_str(&mut out, REPORT_6);
    append_str(&mut out, coverage.as_str());
    append_str(&mut out, REPORT_7);
    append_str(&mut out, routes.as_str());
    append_str(&mut out, REPORT_8);
    append_str(&mut out, database.as_str());
    append_str(&mut out, REPORT_9);
    append_str(&mut out, cpu.as_str());
    append_str(&mut out, REPORT_10);
    append_str(&mut out, host.as_str());
    append_str(&mut out, REPORT_11);
    append_str(&mut out, artifacts.as_str());
    append_str(&mut out, REPORT_12);
    append_str(&mut out, transitions.as_str());
    append_str(&mut out, REPORT_13);
    append_str(&mut out, collectors.as_str());
    append_str(&mut out, REPORT_14);
    append_str(&mut out, logs.as_str());
    append_str(&mut out, REPORT_15);
    append_str(&mut out, embedded.as_str());
    append_str(&mut out, REPORT_16);
    string_of(out.as_slice())
}

pub open spec fn coverage_change_row() -> spec_fn(CoverageDiff) -> Seq<char> {
    |d: CoverageDiff|
        row_text(
            seq![
                d.presence.name(),
                escaped(d.section@),
                escaped(d.node@),
                escaped(d.collector@),
                escaped(d.phase@),
                escaped(text_or(d.base_status, "-"@)) + " → "@ + escaped(
                    text_or(d.candidate_status, "-"@),
                ),
            ],
        )
}

fn make_coverage_change_row(d: &CoverageDiff) -> (r: String)
    ensures
        r@ == coverage_change_row()(*d),
{
    let before = escape_or(&d.base_status, "-");
    let after = escape_or(&d.candidate_status, "-");
    let mut cells: Vec<String> = Vec::new();
    assert(texts(cells@) == Seq::<Seq<char>>::empty());
    add_cell(&mut cells, d.presence.as_str().to_owned());
    add_cell(&mut cells, escape(d.section.as_str()));
    add_cell(&mut cells, escape(d.node.as_str()));
    add_cell(&mut cells, escape(d.collector.as_str()));
    add_cell(&mut cells, escape(d.phase.as_str()));
    add_cell(&mut cells, glue3(before.as_str(), " → ", after.as_str()));
    assert(texts(cells@) == seq![
        d.presence.name(),
        escaped(d.section@),
        escaped(d.node@),
        escaped(d.collector@),
        escaped(d.phase@),
        before@ + " → "@ + after@,
    ]);
    table_row(&cells)
}

pub open spec fn route_change_row(g: spec_fn(Number, u32) -> Seq<char>) -> spec_fn(HttpDiff) -> Seq<
    char,
> {
    |d: HttpDiff|
        row_text(
            seq![
                d.presence.name(),
                escaped(d.node@),
                escaped(d.method@),
                escaped(d.route@),
                change_text(g, d.total_ms),
                change_text(g, d.count),
                change_text(g, d.p95_ms),
            ],
        )
}

fn make_route_change_row<S: Fn(Number, u32) -> String>(d: &HttpDiff, show: &S) -> (r: String)
    requires
        is_writer(*show),
    ensures
        r@ == route_change_row(written(*show))(*d),
{
    let ghost g = written(*show);
    let mut cells: Vec<String> = Vec::new();
    assert(texts(cells@) == Seq::<Seq<char>>::empty());
    add_cell(&mut cells, d.presence.as_str().to_owned());
    add_cell(&mut cells, escape(d.node.as_str()));
    add_cell(&mut cells, escape(d.method.as_str()));
    add_cell(&mut cells, escape(d.route.as_str()));
    add_cell(&mut cells, numeric(&d.total_ms, show));
    add_cell(&mut cells, numeric(&d.count, show));
    add_cell(&mut cells, numeric(&d.p95_ms, show));
    assert(texts(cells@) == seq![
        d.presence.name(),
        escaped(d.node@),
        escaped(d.method@),
        escaped(d.route@),
        change_text(g, d.total_ms),
        change_text(g, d.count),
        change_text(g, d.p95_ms),
    ]);
    table_row(&cells)
}

pub open spec fn query_change_row(g: spec_fn(Number, u32) -> Seq<char>) -> spec_fn(
    DatabaseDiff,
) -> Seq<char> {
    |d: DatabaseDiff|
        row_text(
            seq![
                d.presence.name(),
                escaped(d.node@),
                escaped(d.engine@),
                escaped(d.digest@),
                change_text(g, d.total_ms),
                change_text(g, d.calls),
            ],
        )
}

fn make_query_change_row<S: Fn(Number, u32) -> String>(d: &DatabaseDiff, show: &S) -> (r: String)
    requires
        is_writer(*show),
    ensures
        r@ == query_change_row(written(*show))(*d),
{
    let ghost g = written(*show);
    let mut cells: Vec<String> = Vec::new();
    assert(texts(cells@) == Seq::<Seq<char>>::empty());
    add_cell(&mut cells, d.presence.as_str().to_owned());
    add_cell(&mut cells, escape(d.node.as_str()));
    add_cell(&mut cells, escape(d.engine.as_str()));
    add_cell(&mut cells, escape(d.digest.as_str()));
    add_cell(&mut cells, numeric(&d.total_ms, show));
    add_cell(&mut cells, numeric(&d.calls, show));
    assert(texts(cells@) == seq![
        d.presence.name(),
        escaped(d.node@),
        escaped(d.engine@),
        escaped(d.digest@),
        change_text(g, d.total_ms),
        change_text(g, d.calls),
    ]);
    table_row(&cells)
}

pub open spec fn symbol_change_row(g: spec_fn(Number, u32) -> Seq<char>) -> spec_fn(CpuDiff) -> Seq<
    char,
> {
    |d: CpuDiff|
        row_text(
            seq![
                d.presence.name(),
                escaped(d.node@),
                escaped(d.process@),
                escaped(d.symbol@),
                change_text(g, d.sample_percent),
            ],
        )
}

fn make_symbol_change_row<S: Fn(Number, u32) -> String>(d: &CpuDiff, show: &S) -> (r: String)
    requires
        is_writer(*show),
    ensures
        r@ == symbol_change_row(written(*show))(*d),
{
    let ghost g = written(*show);
    let mut cells: Vec<String> = Vec::new();
    assert(texts(cells@) == Seq::<Seq<char>>::empty());
    add_cell(&mut cells, d.presence.as_str().to_owned());
    add_cell(&mut cells, escape(d.node.as_str()));
    add_cell(&mut cells, escape(d.process.as_str()));
    add_cell(&mut cells, escape(d.symbol.as_str()));
    add_cell(&mut cells, numeric(&d.sample_percent, show));
    assert(texts(cells@) == seq![
        d.presence.name(),
        escaped(d.node@),
        escaped(d.process@),
        escaped(d.symbol@),
        change_text(g, d.sample_percent),
    ]);
    table_row(&cells)
}

pub open spec fn host_change_row(g: spec_fn(Number, u32) -> Seq<char>) -> spec_fn(HostDiff) -> Seq<
    char,
> {
    |d: HostDiff|
        row_text(
            seq![
                d.presence.name(),
                escaped(d.node@),
                escaped(d.metric@),
                escaped(d.target@),
                change_text(g, d.average),
                change_text(g, d.peak),
            ],
        )
}

fn make_host_change_row<S: Fn(Number, u32) -> String>(d: &HostDiff, show: &S) -> (r: String)
    requires
        is_writer(*show),
    ensures
        r@ == host_change_row(written(*show))(*d),
{
    let ghost g = written(*show);
    let mut cells: Vec<String> = Vec::new();
    assert(texts(cells@) == Seq::<Seq<char>>::empty());
    add_cell(&mut cells, d.presence.as_str().to_owned());
    add_cell(&mut cells, escape(d.node.as_str()));
    add_cell(&mut cells, escape(d.metric.as_str()));
    add_cell(&mut cells, escape(d.target.as_str()));
    add_cell(&mut cells, numeric(&d.average, show));
    add_cell(&mut cells, numeric(&d.peak, show));
    assert(texts(cells@) == seq![
        d.presence.name(),
        escaped(d.node@),
        escaped(d.metric@),
        escaped(d.target@),
        change_text(g, d.average),
        change_text(g, d.peak),
    ]);
    table_row(&cells)
}

pub open spec fn move_change_row(g: spec_fn(Number, u32) -> Seq<char>) -> spec_fn(
    TransitionDiff,
) -> Seq<char> {
    |d: TransitionDiff|
        row_text(
            seq![
                d.presence.name(),
                escaped(d.from_route@),
                escaped(d.to_route@),
                change_text(g, d.count),
                change_text(g, d.p95_ms),
            ],
        )
}

fn make_move_change_row<S: Fn(Number, u32) -> String>(d: &TransitionDiff, show: &S) -> (r: String)
    requires
        is_writer(*show),
    ensures
        r@ == move_change_row(written(*show))(*d),
{
    let ghost g = written(*show);
    let mut cells: Vec<String> = Vec::new();
    assert(texts(cells@) == Seq::<Seq<char>>::empty());
    add_cell(&mut cells, d.presence.as_str().to_owned());
    add_cell(&mut cells, escape(d.from_route.as_str()));
    add_cell(&mut cells, escape(d.to_route.as_str()));
    add_cell(&mut cells, numeric(&d.count, show));
    add_cell(&mut cells, numeric(&d.p95_ms, show));
    assert(texts(cells@) == seq![
        d.presence.name(),
        escaped(d.from_route@),
        escaped(d.to_route@),
        change_text(g, d.count),
        change_text(g, d.p95_ms),
    ]);
    table_row(&cells)
}

/// The page of a comparison. `json` is the comparison as JSON.
pub open spec fn diff_page(
    g: spec_fn(Number, u32) -> Seq<char>,
    diff: RunDiff,
    json: Seq<char>,
) -> Seq<char> {
    let title = escaped(
        "isuscope diff "@ + short_or_whole(diff.base.id@) + " → "@ + short_or_whole(
            diff.candidate.id@,
        ),
    );
    DIFF_0@ + title
        + DIFF_1@ + title
        + DIFF_2@ + integer_text(diff.score.base)
        + DIFF_3@ + integer_text(diff.score.candidate)
        + DIFF_4@ + integer_text(diff.score.delta)
        + DIFF_5@ + percent_change(g, diff.score.delta_percent)
        + DIFF_6@ + rows(diff.coverage.items@, coverage_change_row())
        + DIFF_7@ + rows(diff.http.items@, route_change_row(g))
        + DIFF_8@ + rows(diff.database.items@, query_change_row(g))
        + DIFF_9@ + rows(diff.cpu.items@, symbol_change_row(g))
        + DIFF_10@ + rows(diff.host.items@, host_change_row(g))
        + DIFF_11@ + rows(diff.transitions.items@, move_change_row(g))
        + DIFF_12@ + embedded_json(json)
        + DIFF_13@
}

/// Writes the page of a comparison.
pub fn write_diff<S: Fn(Number, u32) -> String>(diff: &RunDiff, json: &str, show: &S) -> (r: String)
    requires
        is_writer(*show),
    ensures
        r@ == diff_page(written(*show), *diff, json@),
{
    let ghost g = written(*show);
    let before = short(diff.base.id.as_str());
    let after = short(diff.candidate.id.as_str());
    let head = glue2("isuscope diff ", before.as_str());
    let name = glue3(head.as_str(), " → ", after.as_str());
    let title = escape(name.as_str());
    let base_score = integer(diff.score.base);
    let candidate_score = integer(diff.score.candidate);
    let score_delta = integer(diff.score.delta);
    let score_percent = change_in_percent(diff.score.delta_percent, show);
    let coverage = make_rows(
        &diff.coverage.items,
        &make_coverage_change_row,
        Ghost(coverage_change_row()),
    );
    let make_route = |item: &HttpDiff| -> (out: String)
        ensures
            out@ == route_change_row(written(*show))(*item),
        { make_route_change_row(item, show) };
    let http = make_rows(&diff.http.items, &make_route, Ghost(route_change_row(g)));
    let make_query = |item: &DatabaseDiff| -> (out: String)
        ensures
            out@ == query_change_row(written(*show))(*item),
        { make_query_change_row(item, show) };
    let database = make_rows(&diff.database.items, &make_query, Ghost(query_change_row(g)));
    let make_symbol = |item: &CpuDiff| -> (out: String)
        ensures
            out@ == symbol_change_row(written(*show))(*item),
        { make_symbol_change_row(item, show) };
    let cpu = make_rows(&diff.cpu.items, &make_symbol, Ghost(symbol_change_row(g)));
    let make_host = |item: &HostDiff| -> (out: String)
        ensures
            out@ == host_change_row(written(*show))(*item),
        { make_host_change_row(item, show) };
    let host = make_rows(&diff.host.items, &make_host, Ghost(host_change_row(g)));
    let make_move = |item: &TransitionDiff| -> (out: String)
        ensures
            out@ == move_change_row(written(*show))(*item),
        { make_move_change_row(item, show) };
    let transitions = make_rows(&diff.transitions.items, &make_move, Ghost(move_change_row(g)));
    let embedded = embed(json);
    let mut out = chars_of(DIFF_0);
    append_str(&mut out, title.as_str());
    append_str(&mut out, DIFF_1);
    append_str(&mut out, title.as_str());
    append_str(&mut out, DIFF_2);
    append_str(&mut out, base_score.as_str());
    append_str(&mut out, DIFF_3);
    append_str(&mut out, candidate_score.as_str());
    append_str(&mut out, DIFF_4);
    append_str(&mut out, score_delta.as_str());
    append_str(&mut out, DIFF_5);
    append_str(&mut out, score_percent.as_str());
    append_str(&mut out, DIFF_6);
    append_str(&mut out, coverage.as_str());
    append_str(&mut out, DIFF_7);
    append_str(&mut out, http.as_str());
    append_str(&mut out, DIFF_8);
    append_str(&mut out, database.as_str());
    append_str(&mut out, DIFF_9);
    append_str(&mut out, cpu.as_str());
    append_str(&mut out, DIFF_10);
    append_str(&mut out, host.as_str());
    append_str(&mut out, DIFF_11);
    append_str(&mut out, transitions.as_str());
    append_str(&mut out, DIFF_12);
    append_str(&mut out, embedded.as_str());
    append_str(&mut out, DIFF_13);
    string_of(out.as_slice())
}

/// What is said of a run that can be chosen.
pub open spec fn option_label(run: RunSummary) -> Seq<char> {
    short_or_whole(run.id@) + " · score "@ + integer_text(run.score) + " · "@ + (
    if run.tags@.len() == 0 {
        run.started_at@
    } else {
        join(texts(run.tags@), ","@)
    })
}

pub open spec fn option_text(run: RunSummary, selected: bool) -> Seq<char> {
    "<option value=\""@ + escaped(run.id@) + "\""@ + (if selected {
        " selected"@
    } else {
        ""@
    }) + ">"@ + escaped(option_label(run)) + "</option>"@
}

/// The runs that can be chosen, one of them chosen already.
pub open spec fn option_list(runs: Seq<RunSummary>, selected: int) -> Seq<char>
    decreases runs.len(),
{
    if runs.len() == 0 {
        Seq::empty()
    } else {
        option_list(runs.drop_last(), selected) + option_text(
            runs.last(),
            runs.len() - 1 == selected,
        )
    }
}

fn make_option(run: &RunSummary, selected: bool) -> (r: String)
    ensures
        r@ == option_text(*run, selected),
{
    let score = integer(run.score);
    let words = if run.tags.len() == 0 {
        run.started_at.clone()
    } else {
        crate::runner::joined_texts(&run.tags, ",")
    };
    let label = glue5(
        short(run.id.as_str()).as_str(),
        " · score ",
        score.as_str(),
        " · ",
        words.as_str(),
    );
    let mark = if selected {
        " selected"
    } else {
        ""
    };
    let head = glue5("<option value=\"", escape(run.id.as_str()).as_str(), "\"", mark, ">");
    glue3(head.as_str(), escape(label.as_str()).as_str(), "</option>")
}

fn make_options(runs: &Vec<RunSummary>, selected: usize) -> (r: String)
    ensures
        r@ == option_list(runs@, selected as int),
{
    let mut out: Vec<char> = Vec::new();
    let mut i: usize = 0;
    assert(runs@.take(0) == Seq::<RunSummary>::empty());
    while i < runs.len()
        invariant
            i <= runs@.len(),
            out@ == option_list(runs@.take(i as int), selected as int),
        decreases runs.len() - i,
    {
        let text = make_option(&runs[i], i == selected);
        append_str(&mut out, text.as_str());
        assert(runs@.take(i + 1).drop_last() == runs@.take(i as int));
        assert(runs@.take(i + 1).last() == runs@[i as int]);
        i += 1;
    }
    assert(runs@.take(i as int) == runs@);
    string_of(out.as_slice())
}

/// The page on which two runs are chosen: at first the latest is compared with the one before it.
pub open spec fn form_page(runs: Seq<RunSummary>) -> Seq<char> {
    FORM_0@ + option_list(runs, if runs.len() > 1 { 1 } else { 0 })
        + FORM_1@ + option_list(runs, 0)
        + FORM_2@
}

/// Writes the page on which two runs are chosen.
pub fn diff_form(runs: &Vec<RunSummary>) -> (r: String)
    ensures
        r@ == form_page(runs@),
{
    let base = if runs.len() > 1 {
        make_options(runs, 1)
    } else {
        make_options(runs, 0)
    };
    let candidate = make_options(runs, 0);
    let mut out = chars_of(FORM_0);
    append_str(&mut out, base.as_str());
    append_str(&mut out, FORM_1);
    append_str(&mut out, candidate.as_str());
    append_str(&mut out, FORM_2);
    string_of(out.as_slice())
}

} // verus!
