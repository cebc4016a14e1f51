//! Statement statistics that slp printed.
use crate::alp::{
    add_maybe, first_text, json_records, maybe, ms_option, optional_ms, plain_records, Record,
    RecordView,
};
use crate::digest::{fingerprint, fingerprint_of};
use crate::join::{chain, ref_views, value_views};
use crate::json::{json_of_text, json_option, parse_text, Json, JsonView};
use crate::labels::{labels2, labels3, no_labels, with_label, Pair};
use crate::model::{Metric, MetricView};
use crate::number::{arithmetic, is_arithmetic, Number, Op};
use crate::numeral::{is_reader, read_number, reading};
use crate::report::first_of;
use crate::slow_log::{in_ms, milliseconds};
use crate::text::{
    append, append_str, byte_length, chars_of, decimal, decimal_of, fit, fitting, halves, is_blank,
    last_halves, lines, lines_of, slice_of, split_last, split_once, starts, starts_with, string_of,
    trim, trimmed, views,
};
use vstd::prelude::*;

verus! {

/// Why an output of slp cannot be used.
#[derive(Clone, Copy, Debug, PartialEq, Eq, Structural)]
pub enum SlpError {
    NotJson,
    /// There are records, and none of them has a field that is understood.
    NoFields,
    /// The line has another number of fields than four.
    Fields(usize),
    /// The count on the line is not a number.
    Count(usize),
    /// The total on the line is not a number.
    Total(usize),
    /// The quantile on the line is not a number.
    Quantile(usize),
    /// A number on the line is negative or not finite.
    Invalid(usize),
}

/// A text with the number of a line in it.
pub open spec fn on_line(head: Seq<char>, line: usize, tail: Seq<char>) -> Seq<char> {
    head + decimal(line as nat) + tail
}

fn line_text(head: &str, line: usize, tail: &str) -> (r: String)
    ensures
        r@ == on_line(head@, line, tail@),
{
    let mut out = chars_of(head);
    append(&mut out, decimal_of(line as u64).as_slice());
    append_str(&mut out, tail);
    string_of(out.as_slice())
}

impl SlpError {
    pub open spec fn text(self) -> Seq<char> {
        match self {
            SlpError::NotJson => "output is not valid JSON"@,
            SlpError::NoFields =>
                "SLP JSON contained records but no supported calls/duration fields"@,
            SlpError::Fields(line) => on_line(
                "SLP TSV line "@,
                line,
                " must contain four fields"@,
            ),
            SlpError::Count(line) => on_line("invalid SLP count on line "@, line, ""@),
            SlpError::Total(line) => on_line("invalid SLP total query time on line "@, line, ""@),
            SlpError::Quantile(line) => on_line("invalid SLP p95 query time on line "@, line, ""@),
            SlpError::Invalid(line) => on_line(
                "SLP TSV line "@,
                line,
                " contains an invalid metric"@,
            ),
        }
    }

    pub fn message(self) -> (r: String)
        ensures
            r@ == self.text(),
    {
        match self {
            SlpError::NotJson => "output is not valid JSON".to_owned(),
            SlpError::NoFields => {
                "SLP JSON contained records but no supported calls/duration fields".to_owned()
            },
            SlpError::Fields(line) => line_text(
                "SLP TSV line ",
                line,
                " must contain four fields",
            ),
            SlpError::Count(line) => line_text("invalid SLP count on line ", line, ""),
            SlpError::Total(line) => line_text("invalid SLP total query time on line ", line, ""),
            SlpError::Quantile(line) => line_text("invalid SLP p95 query time on line ", line, ""),
            SlpError::Invalid(line) => line_text(
                "SLP TSV line ",
                line,
                " contains an invalid metric",
            ),
        }
    }
}

/// A record that is an object and not a row of a table.
pub open spec fn plain(value: JsonView) -> RecordView {
    RecordView::Object(value)
}

/// The metrics of one record: none without a statement.
pub open spec fn slp_rows(
    f: spec_fn(Op) -> Number,
    number: spec_fn(Seq<char>) -> Option<Number>,
    value: JsonView,
) -> Seq<MetricView> {
    let r = plain(value);
    let digest = first_text(
        first_text(first_text(r.text("digest"@), r.text("query"@)), r.text("fingerprint"@)),
        r.text("abstract"@),
    );
    if !r.has_fields() || digest is None {
        Seq::empty()
    } else {
        let engine = match r.text("engine"@) {
            Some(name) => name,
            None => "mysql"@,
        };
        let labels = with_label(
            with_label(no_labels(), "digest"@, digest->0),
            "engine"@,
            engine,
        );
        maybe(
            "db.query.calls"@,
            first_of(
                first_of(r.number(number, "count"@), r.number(number, "calls"@)),
                r.number(number, "query_count"@),
            ),
            "queries"@,
            labels,
        ) + maybe(
            "db.query.total_duration"@,
            ms_option(
                f,
                first_of(
                    first_of(r.number(number, "total"@), r.number(number, "total_time"@)),
                    r.number(number, "query_time_sum"@),
                ),
            ),
            "ms"@,
            labels,
        )
    }
}

/// What an output of slp in JSON comes to.
pub open spec fn slp_metrics_of(
    f: spec_fn(Op) -> Number,
    number: spec_fn(Seq<char>) -> Option<Number>,
    value: Option<JsonView>,
) -> Result<Seq<MetricView>, SlpError> {
    match value {
        None => Err(SlpError::NotJson),
        Some(v) => {
            let records = plain_records(v);
            let metrics = chain(records.map_values(|r: JsonView| slp_rows(f, number, r)));
            if records.len() > 0 && metrics.len() == 0 {
                Err(SlpError::NoFields)
            } else {
                Ok(metrics)
            }
        },
    }
}

fn either(a: Option<Number>, b: Option<Number>) -> (r: Option<Number>)
    ensures
        r == first_of(a, b),
{
    match a {
        Some(n) => Some(n),
        None => b,
    }
}

fn add_record<F: Fn(Op) -> Number, R: Fn(&str) -> Option<Number>>(
    out: &mut Vec<Metric>,
    value: &Json,
    compute: &F,
    read: &R,
)
    requires
        is_arithmetic(*compute),
        is_reader(*read),
    ensures
        value_views(final(out)@) == value_views(old(out)@) + slp_rows(
            arithmetic(*compute),
            reading(*read),
            value@,
        ),
{
    let ghost before = value_views(out@);
    let record = Record::Object(value);
    proof {
        value.parts();
        assert(before + Seq::<MetricView>::empty() == before);
    }
    match value {
        Json::Object(_) => {},
        _ => {
            return;
        },
    }
    let digest = match record.text("digest") {
        Some(s) => s,
        None => match record.text("query") {
            Some(s) => s,
            None => match record.text("fingerprint") {
                Some(s) => s,
                None => match record.text("abstract") {
                    Some(s) => s,
                    None => {
                        return;
                    },
                },
            },
        },
    };
    let engine: &str = match record.text("engine") {
        Some(s) => s.as_str(),
        None => "mysql",
    };
    let labels = labels2("digest", digest.as_str(), "engine", engine);
    let calls = either(
        either(record.number("count", read), record.number("calls", read)),
        record.number("query_count", read),
    );
    add_maybe(out, "db.query.calls", calls, "queries", &labels);
    let total = either(
        either(record.number("total", read), record.number("total_time", read)),
        record.number("query_time_sum", read),
    );
    let ms = optional_ms(total, compute);
    add_maybe(out, "db.query.total_duration", ms, "ms", &labels);
    proof {
        let a = maybe("db.query.calls"@, calls, "queries"@, labels@);
        let b = maybe("db.query.total_duration"@, ms, "ms"@, labels@);
        assert(before + a + b == before + (a + b));
    }
}

/// Turns the JSON value that slp printed, if it is one, into metrics.
pub fn slp_metrics<F: Fn(Op) -> Number, R: Fn(&str) -> Option<Number>>(
    value: &Option<Json>,
    compute: &F,
    read: &R,
) -> (r: Result<Vec<Metric>, SlpError>)
    requires
        is_arithmetic(*compute),
        is_reader(*read),
    ensures
        match r {
            Ok(metrics) => slp_metrics_of(
                arithmetic(*compute),
                reading(*read),
                json_option(*value),
            ) == Ok::<Seq<MetricView>, SlpError>(value_views(metrics@)),
            Err(error) => slp_metrics_of(
                arithmetic(*compute),
                reading(*read),
                json_option(*value),
            ) == Err::<Seq<MetricView>, SlpError>(error),
        },
{
    let ghost f = arithmetic(*compute);
    let ghost number = reading(*read);
    let value = match value {
        Some(v) => v,
        None => {
            return Err(SlpError::NotJson);
        },
    };
    let records = json_records(value);
    let ghost all = ref_views(records@);
    let ghost each = |r: JsonView| slp_rows(f, number, r);
    let mut out: Vec<Metric> = Vec::new();
    let mut i: usize = 0;
    assert(value_views(out@) == chain(all.take(0).map_values(each)));
    while i < records.len()
        invariant
            is_arithmetic(*compute),
            is_reader(*read),
            f == arithmetic(*compute),
            number == reading(*read),
            i <= records@.len(),
            all == ref_views(records@),
            each == (|r: JsonView| slp_rows(f, number, r)),
            value_views(out@) == chain(all.take(i as int).map_values(each)),
        decreases records.len() - i,
    {
        add_record(&mut out, records[i], compute, read);
        proof {
            let next = all.take(i + 1).map_values(each);
            assert(all[i as int] == records@[i as int]@);
            assert(next.drop_last() == all.take(i as int).map_values(each));
            assert(next.last() == each(all[i as int]));
        }
        i += 1;
    }
    assert(all.take(i as int) == all);
    assert(value_views(out@).len() == out@.len());
    assert(all.len() == records@.len());
    if records.len() > 0 && out.len() == 0 {
        return Err(SlpError::NoFields);
    }
    Ok(out)
}

/// Reads the JSON that slp printed into metrics.
pub fn parse_slp_json<F: Fn(Op) -> Number, R: Fn(&str) -> Option<Number>>(
    raw: &str,
    compute: &F,
    read: &R,
) -> (r: Result<Vec<Metric>, SlpError>)
    requires
        is_arithmetic(*compute),
        is_reader(*read),
    ensures
        match r {
            Ok(metrics) => slp_metrics_of(
                arithmetic(*compute),
                reading(*read),
                json_of_text(raw@),
            ) == Ok::<Seq<MetricView>, SlpError>(value_views(metrics@)),
            Err(error) => slp_metrics_of(
                arithmetic(*compute),
                reading(*read),
                json_of_text(raw@),
            ) == Err::<Seq<MetricView>, SlpError>(error),
        },
{
    let value = parse_text(raw);
    slp_metrics(&value, compute, read)
}

/// The four fields of a line: count, statement, total and quantile.
pub open spec fn four_fields(line: Seq<char>) -> Option<(Seq<char>, Seq<char>, Seq<char>, Seq<char>)> {
    match split_once(line, "\t"@) {
        Some((a, rest)) => match split_once(rest, "\t"@) {
            Some((b, rest)) => match split_once(rest, "\t"@) {
                Some((c, d)) => Some((a, b, c, d)),
                None => None,
            },
            None => None,
        },
        None => None,
    }
}

/// A finite number that is not negative.
pub open spec fn is_measure(n: Number) -> bool {
    n.is_finite_spec() && !n.is_negative_spec()
}

pub open spec fn statement_labels(digest: Seq<char>) -> Seq<Pair> {
    with_label(with_label(no_labels(), "digest"@, digest), "engine"@, "mysql"@)
}

/// What the line with number `n` comes to.
pub open spec fn tsv_line(
    f: spec_fn(Op) -> Number,
    number: spec_fn(Seq<char>) -> Option<Number>,
    line: Seq<char>,
    n: usize,
) -> Result<Seq<MetricView>, SlpError> {
    if is_blank(line) {
        Ok(Seq::empty())
    } else {
        match four_fields(line) {
            None => Err(SlpError::Fields(n)),
            Some((count, digest, total, quantile)) => match number(count) {
                None => Err(SlpError::Count(n)),
                Some(calls) => match number(total) {
                    None => Err(SlpError::Total(n)),
                    Some(seconds) => match number(quantile) {
                        None => Err(SlpError::Quantile(n)),
                        Some(p95) => if is_measure(calls) && is_measure(seconds) && is_measure(
                            p95,
                        ) {
                            Ok(
                                maybe(
                                    "db.query.calls"@,
                                    Some(calls),
                                    "queries"@,
                                    statement_labels(digest),
                                ) + maybe(
                                    "db.query.total_duration"@,
                                    Some(in_ms(f, seconds)),
                                    "ms"@,
                                    statement_labels(digest),
                                ) + maybe(
                                    "db.query.p95_duration"@,
                                    Some(in_ms(f, p95)),
                                    "ms"@,
                                    statement_labels(digest),
                                ),
                            )
                        } else {
                            Err(SlpError::Invalid(n))
                        },
                    },
                },
            },
        }
    }
}

/// The metrics of all lines, or the fault of the first line that has one.
pub open spec fn tsv_lines(
    f: spec_fn(Op) -> Number,
    number: spec_fn(Seq<char>) -> Option<Number>,
    log: Seq<Seq<char>>,
) -> Result<Seq<MetricView>, SlpError>
    decreases log.len(),
{
    if log.len() == 0 {
        Ok(Seq::empty())
    } else {
        match tsv_lines(f, number, log.drop_last()) {
            Err(error) => Err(error),
            Ok(metrics) => match tsv_line(f, number, log.last(), log.len() as usize) {
                Err(error) => Err(error),
                Ok(more) => Ok(metrics + more),
            },
        }
    }
}

proof fn first_fault_stays(
    f: spec_fn(Op) -> Number,
    number: spec_fn(Seq<char>) -> Option<Number>,
    log: Seq<Seq<char>>,
    i: int,
)
    requires
        0 <= i <= log.len(),
        tsv_lines(f, number, log.take(i)) is Err,
    ensures
        tsv_lines(f, number, log) == tsv_lines(f, number, log.take(i)),
    decreases log.len() - i,
{
    if i < log.len() {
        assert(log.take(i + 1).drop_last() == log.take(i));
        first_fault_stays(f, number, log, i + 1);
    } else {
        assert(log.take(i) == log);
    }
}

fn measures(n: Number) -> (r: bool)
    ensures
        r == is_measure(n),
{
    n.is_finite() && !n.is_negative()
}

fn fields_from(line: &[char]) -> (r: Option<(Vec<char>, Vec<char>, Vec<char>, Vec<char>)>)
    ensures
        match r {
            Some((a, b, c, d)) => four_fields(line@) == Some((a@, b@, c@, d@)),
            None => four_fields(line@) is None,
        },
{
    let tab = chars_of("\t");
    match halves(line, tab.as_slice()) {
        Some((a, rest)) => match halves(rest.as_slice(), tab.as_slice()) {
            Some((b, rest)) => match halves(rest.as_slice(), tab.as_slice()) {
                Some((c, d)) => Some((a, b, c, d)),
                None => None,
            },
            None => None,
        },
        None => None,
    }
}

fn add_tsv_line<F: Fn(Op) -> Number, R: Fn(&str) -> Option<Number>>(
    out: &mut Vec<Metric>,
    line: &[char],
    n: usize,
    compute: &F,
    read: &R,
) -> (r: Option<SlpError>)
    requires
        is_arithmetic(*compute),
        is_reader(*read),
    ensures
        match r {
            None => tsv_line(arithmetic(*compute), reading(*read), line@, n) matches Ok(more)
                && value_views(final(out)@) == value_views(old(out)@) + more,
            Some(error) => tsv_line(arithmetic(*compute), reading(*read), line@, n) == Err::<
                Seq<MetricView>,
                SlpError,
            >(error),
        },
{
    let ghost before = value_views(out@);
    if trimmed(line).len() == 0 {
        assert(before + Seq::<MetricView>::empty() == before);
        return None;
    }
    let (count, digest, total, quantile) = match fields_from(line) {
        Some(fields) => fields,
        None => {
            return Some(SlpError::Fields(n));
        },
    };
    let calls = match read_number(read, count.as_slice()) {
        Some(v) => v,
        None => {
            return Some(SlpError::Count(n));
        },
    };
    let seconds = match read_number(read, total.as_slice()) {
        Some(v) => v,
        None => {
            return Some(SlpError::Total(n));
        },
    };
    let p95 = match read_number(read, quantile.as_slice()) {
        Some(v) => v,
        None => {
            return Some(SlpError::Quantile(n));
        },
    };
    if !measures(calls) || !measures(seconds) || !measures(p95) {
        return Some(SlpError::Invalid(n));
    }
    let statement = string_of(digest.as_slice());
    let labels = labels2("digest", statement.as_str(), "engine", "mysql");
    let total_ms = milliseconds(seconds, compute);
    let p95_ms = milliseconds(p95, compute);
    add_maybe(out, "db.query.calls", Some(calls), "queries", &labels);
    add_maybe(out, "db.query.total_duration", Some(total_ms), "ms", &labels);
    add_maybe(out, "db.query.p95_duration", Some(p95_ms), "ms", &labels);
    proof {
        let a = maybe("db.query.calls"@, Some(calls), "queries"@, labels@);
        let b = maybe("db.query.total_duration"@, Some(total_ms), "ms"@, labels@);
        let c = maybe("db.query.p95_duration"@, Some(p95_ms), "ms"@, labels@);
        assert(before + a + b + c == before + (a + b + c));
    }
    None
}

/// Reads the table that slp printed into metrics.
pub fn parse_slp_tsv<F: Fn(Op) -> Number, R: Fn(&str) -> Option<Number>>(
    raw: &str,
    compute: &F,
    read: &R,
) -> (r: Result<Vec<Metric>, SlpError>)
    requires
        is_arithmetic(*compute),
        is_reader(*read),
    ensures
        match r {
            Ok(metrics) => tsv_lines(arithmetic(*compute), reading(*read), lines(raw@)) == Ok::<
                Seq<MetricView>,
                SlpError,
            >(value_views(metrics@)),
            Err(error) => tsv_lines(arithmetic(*compute), reading(*read), lines(raw@)) == Err::<
                Seq<MetricView>,
                SlpError,
            >(error),
        },
{
    let ghost f = arithmetic(*compute);
    let ghost number = reading(*read);
    let log = lines_of(chars_of(raw).as_slice());
    let ghost all = lines(raw@);
    let mut out: Vec<Metric> = Vec::new();
    let mut i: usize = 0;
    assert(all.take(0) == Seq::<Seq<char>>::empty());
    assert(value_views(out@) == Seq::<MetricView>::empty());
    while i < log.len()
        invariant
            is_arithmetic(*compute),
            is_reader(*read),
            f == arithmetic(*compute),
            number == reading(*read),
            i <= log@.len(),
            all == views(log@),
            all == lines(raw@),
            tsv_lines(f, number, all.take(i as int)) == Ok::<Seq<MetricView>, SlpError>(
                value_views(out@),
            ),
        decreases log.len() - i,
    {
        proof {
            assert(all.take(i + 1).drop_last() == all.take(i as int));
            assert(all.take(i + 1).last() == log@[i as int]@);
        }
        match add_tsv_line(&mut out, log[i].as_slice(), i + 1, compute, read) {
            Some(error) => {
                proof {
                    first_fault_stays(f, number, all, i + 1);
                }
                return Err(error);
            },
            None => {},
        }
        i += 1;
    }
    assert(all.take(i as int) == all);
    Ok(out)
}

/// The most bytes of a statement that are shown.
pub const DIGEST_LIMIT: usize = 1024;

/// The statement as it is shown, and the digest of the whole statement where it was cut.
pub open spec fn shown_statement(query: Seq<char>) -> (Seq<char>, Option<Seq<char>>) {
    let digest = trim(query);
    if byte_length(digest) > DIGEST_LIMIT {
        (
            digest.take(fitting(digest, DIGEST_LIMIT as nat) as int).push('…'),
            Some(fingerprint_of(vstd::utf8::encode_utf8(digest)).take(16)),
        )
    } else {
        (digest, None)
    }
}

/// The columns of a line of statistics by window.
#[verifier::ext_equal]
pub struct Columns {
    pub window: Seq<char>,
    pub count: Seq<char>,
    pub query: Seq<char>,
    pub sum: Seq<char>,
    pub largest: Seq<char>,
    pub p95: Seq<char>,
    pub p99: Seq<char>,
    pub lock: Seq<char>,
    pub sent: Seq<char>,
    pub examined: Seq<char>,
}

/// The seven columns at the end of a line, and what stands before them: a tab in a statement moves
/// no column.
pub open spec fn last_columns(rest: Seq<char>, n: nat) -> Option<(Seq<char>, Seq<Seq<char>>)>
    decreases n,
{
    if n == 0 {
        Some((rest, Seq::empty()))
    } else {
        match split_last(rest, '\t') {
            Some((before, last)) => match last_columns(before, (n - 1) as nat) {
                Some((query, columns)) => Some((query, columns.push(last))),
                None => None,
            },
            None => None,
        }
    }
}

pub open spec fn columns_of(line: Seq<char>) -> Option<Columns> {
    match split_once(line, "\t"@) {
        Some((window, rest)) => match split_once(rest, "\t"@) {
            Some((count, rest)) => match last_columns(rest, 7) {
                Some((query, c)) => Some(
                    Columns {
                        window,
                        count,
                        query,
                        sum: c[0],
                        largest: c[1],
                        p95: c[2],
                        p99: c[3],
                        lock: c[4],
                        sent: c[5],
                        examined: c[6],
                    },
                ),
                None => None,
            },
            None => None,
        },
        None => None,
    }
}

pub open spec fn window_labels(window: Seq<char>, shown: (Seq<char>, Option<Seq<char>>)) -> Seq<Pair> {
    let labels = with_label(
        with_label(with_label(no_labels(), "digest"@, shown.0), "engine"@, "mysql"@),
        "window"@,
        window,
    );
    match shown.1 {
        Some(id) => with_label(labels, "digest_id"@, id),
        None => labels,
    }
}

/// The metrics of the columns, with the numbers that they write.
pub open spec fn column_rows(
    f: spec_fn(Op) -> Number,
    number: spec_fn(Seq<char>) -> Option<Number>,
    c: Columns,
) -> Seq<MetricView> {
    match (number(trim(c.count)), number(trim(c.sum))) {
        (Some(count), Some(sum)) => {
            let labels = window_labels(c.window, shown_statement(c.query));
            maybe("db.query.calls"@, Some(count), "queries"@, labels) + maybe(
                "db.query.total_duration"@,
                Some(in_ms(f, sum)),
                "ms"@,
                labels,
            ) + maybe(
                "db.query.duration_max"@,
                ms_option(f, number(trim(c.largest))),
                "ms"@,
                labels,
            ) + maybe(
                "db.query.p95_duration"@,
                ms_option(f, number(trim(c.p95))),
                "ms"@,
                labels,
            ) + maybe(
                "db.query.p99_duration"@,
                ms_option(f, number(trim(c.p99))),
                "ms"@,
                labels,
            ) + maybe(
                "db.query.lock_duration"@,
                ms_option(f, number(trim(c.lock))),
                "ms"@,
                labels,
            ) + maybe("db.query.rows_sent"@, number(trim(c.sent)), "rows"@, labels) + maybe(
                "db.query.rows_examined"@,
                number(trim(c.examined)),
                "rows"@,
                labels,
            )
        },
        _ => Seq::empty(),
    }
}

/// The metrics of one line; a line of another form gives none.
pub open spec fn slp_window_line(
    f: spec_fn(Op) -> Number,
    number: spec_fn(Seq<char>) -> Option<Number>,
    line: Seq<char>,
) -> Seq<MetricView> {
    if is_blank(line) || starts(line, "{"@) {
        Seq::empty()
    } else {
        match columns_of(line) {
            Some(c) => column_rows(f, number, c),
            None => Seq::empty(),
        }
    }
}

/// Splits off the last columns, the last one first.
fn columns_from_end(rest: &[char], n: usize) -> (r: Option<(Vec<char>, Vec<Vec<char>>)>)
    ensures
        match r {
            Some((query, columns)) => last_columns(rest@, n as nat) == Some(
                (query@, views(columns@)),
            ) && columns@.len() == n,
            None => last_columns(rest@, n as nat) is None,
        },
    decreases n,
{
    if n == 0 {
        let whole = slice_of(rest, 0, rest.len());
        let none: Vec<Vec<char>> = Vec::new();
        assert(whole@ == rest@);
        assert(views(none@) == Seq::<Seq<char>>::empty());
        return Some((whole, none));
    }
    match last_halves(rest, '\t') {
        Some((before, last)) => match columns_from_end(before.as_slice(), n - 1) {
            Some((query, columns)) => {
                let mut columns = columns;
                let ghost was = columns@;
                columns.push(last);
                assert(views(columns@) == views(was).push(last@));
                Some((query, columns))
            },
            None => None,
        },
        None => None,
    }
}

fn show_statement(query: &[char]) -> (r: (Vec<char>, Option<Vec<char>>))
    ensures
        r.0@ == shown_statement(query@).0,
        crate::text::chars_option(r.1) == shown_statement(query@).1,
{
    let digest = trimmed(query);
    let kept: usize = fit(digest.as_slice(), DIGEST_LIMIT);
    if kept < digest.len() {
        let text = string_of(digest.as_slice());
        let id = fingerprint(text.as_str().as_bytes());
        let short = slice_of(id.as_slice(), 0, 16);
        assert(short@ == id@.take(16));
        let mut shown = slice_of(digest.as_slice(), 0, kept);
        assert(shown@ == digest@.take(kept as int));
        shown.push('…');
        (shown, Some(short))
    } else {
        (digest, None)
    }
}

proof fn eight<T>(
    x: Seq<T>,
    a: Seq<T>,
    b: Seq<T>,
    c: Seq<T>,
    d: Seq<T>,
    e: Seq<T>,
    g: Seq<T>,
    h: Seq<T>,
    i: Seq<T>,
)
    ensures
        x + a + b + c + d + e + g + h + i == x + (a + b + c + d + e + g + h + i),
{
}

fn number_in<R: Fn(&str) -> Option<Number>>(text: &Vec<char>, read: &R) -> (r: Option<Number>)
    requires
        is_reader(*read),
    ensures
        r == reading(*read)(trim(text@)),
{
    read_number(read, trimmed(text.as_slice()).as_slice())
}

fn add_columns<F: Fn(Op) -> Number, R: Fn(&str) -> Option<Number>>(
    out: &mut Vec<Metric>,
    window: &Vec<char>,
    count: &Vec<char>,
    query: &Vec<char>,
    columns: &Vec<Vec<char>>,
    compute: &F,
    read: &R,
)
    requires
        is_arithmetic(*compute),
        is_reader(*read),
        columns@.len() == 7,
    ensures
        value_views(final(out)@) == value_views(old(out)@) + column_rows(
            arithmetic(*compute),
            reading(*read),
            (Columns {
                window: window@,
                count: count@,
                query: query@,
                sum: views(columns@)[0],
                largest: views(columns@)[1],
                p95: views(columns@)[2],
                p99: views(columns@)[3],
                lock: views(columns@)[4],
                sent: views(columns@)[5],
                examined: views(columns@)[6],
            }),
        ),
{
    let ghost before = value_views(out@);
    let ghost f = arithmetic(*compute);
    assert(before + Seq::<MetricView>::empty() == before);
    let calls = match number_in(count, read) {
        Some(n) => n,
        None => {
            return;
        },
    };
    let sum = match number_in(&columns[0], read) {
        Some(n) => n,
        None => {
            return;
        },
    };
    let (shown, id) = show_statement(query.as_slice());
    let digest = string_of(shown.as_slice());
    let name = string_of(window.as_slice());
    let mut labels = labels3(
        "digest",
        digest.as_str(),
        "engine",
        "mysql",
        "window",
        name.as_str(),
    );
    match id {
        Some(id) => {
            labels.insert("digest_id".to_owned(), string_of(id.as_slice()));
        },
        None => {},
    }
    assert(labels@ == window_labels(window@, shown_statement(query@)));
    let total = Some(milliseconds(sum, compute));
    let largest = optional_ms(number_in(&columns[1], read), compute);
    let p95 = optional_ms(number_in(&columns[2], read), compute);
    let p99 = optional_ms(number_in(&columns[3], read), compute);
    let lock = optional_ms(number_in(&columns[4], read), compute);
    let sent = number_in(&columns[5], read);
    let examined = number_in(&columns[6], read);
    add_maybe(out, "db.query.calls", Some(calls), "queries", &labels);
    add_maybe(out, "db.query.total_duration", total, "ms", &labels);
    add_maybe(out, "db.query.duration_max", largest, "ms", &labels);
    add_maybe(out, "db.query.p95_duration", p95, "ms", &labels);
    add_maybe(out, "db.query.p99_duration", p99, "ms", &labels);
    add_maybe(out, "db.query.lock_duration", lock, "ms", &labels);
    add_maybe(out, "db.query.rows_sent", sent, "rows", &labels);
    add_maybe(out, "db.query.rows_examined", examined, "rows", &labels);
    proof {
        eight(
            before,
            maybe("db.query.calls"@, Some(calls), "queries"@, labels@),
            maybe("db.query.total_duration"@, total, "ms"@, labels@),
            maybe("db.query.duration_max"@, largest, "ms"@, labels@),
            maybe("db.query.p95_duration"@, p95, "ms"@, labels@),
            maybe("db.query.p99_duration"@, p99, "ms"@, labels@),
            maybe("db.query.lock_duration"@, lock, "ms"@, labels@),
            maybe("db.query.rows_sent"@, sent, "rows"@, labels@),
            maybe("db.query.rows_examined"@, examined, "rows"@, labels@),
        );
    }
}

fn add_window_line<F: Fn(Op) -> Number, R: Fn(&str) -> Option<Number>>(
    out: &mut Vec<Metric>,
    line: &Vec<char>,
    compute: &F,
    read: &R,
)
    requires
        is_arithmetic(*compute),
        is_reader(*read),
    ensures
        value_views(final(out)@) == value_views(old(out)@) + slp_window_line(
            arithmetic(*compute),
            reading(*read),
            line@,
        ),
{
    let ghost before = value_views(out@);
    assert(before + Seq::<MetricView>::empty() == before);
    if trimmed(line.as_slice()).len() == 0 || starts_with(
        line.as_slice(),
        chars_of("{").as_slice(),
    ) {
        return;
    }
    let tab = chars_of("\t");
    match halves(line.as_slice(), tab.as_slice()) {
        Some((window, rest)) => match halves(rest.as_slice(), tab.as_slice()) {
            Some((count, rest)) => match columns_from_end(rest.as_slice(), 7) {
                Some((query, columns)) => {
                    add_columns(out, &window, &count, &query, &columns, compute, read);
                },
                None => {},
            },
            None => {},
        },
        None => {},
    }
}

/// The metrics of an output of statistics by window.
pub open spec fn slp_windows(
    f: spec_fn(Op) -> Number,
    number: spec_fn(Seq<char>) -> Option<Number>,
    raw: Seq<char>,
) -> Seq<MetricView> {
    chain(lines(raw).map_values(|l: Seq<char>| slp_window_line(f, number, l)))
}

/// Reads statistics by window into metrics: window, count, statement, total, maximum, the
/// quantiles, lock time and rows, with tabs between them. The times are in seconds.
pub fn parse_slp_windows<F: Fn(Op) -> Number, R: Fn(&str) -> Option<Number>>(
    raw: &str,
    compute: &F,
    read: &R,
) -> (r: Vec<Metric>)
    requires
        is_arithmetic(*compute),
        is_reader(*read),
    ensures
        value_views(r@) == slp_windows(arithmetic(*compute), reading(*read), raw@),
{
    let ghost f = arithmetic(*compute);
    let ghost number = reading(*read);
    let log = lines_of(chars_of(raw).as_slice());
    let ghost all = lines(raw@);
    let ghost each = |l: Seq<char>| slp_window_line(f, number, l);
    let mut out: Vec<Metric> = Vec::new();
    let mut i: usize = 0;
    assert(value_views(out@) == chain(all.take(0).map_values(each)));
    while i < log.len()
        invariant
            is_arithmetic(*compute),
            is_reader(*read),
            f == arithmetic(*compute),
            number == reading(*read),
            i <= log@.len(),
            all == views(log@),
            each == (|l: Seq<char>| slp_window_line(f, number, l)),
            value_views(out@) == chain(all.take(i as int).map_values(each)),
        decreases log.len() - i,
    {
        add_window_line(&mut out, &log[i], compute, read);
        proof {
            let next = all.take(i + 1).map_values(each);
            assert(all[i as int] == log@[i as int]@);
            assert(next.drop_last() == all.take(i as int).map_values(each));
            assert(next.last() == each(all[i as int]));
        }
        i += 1;
    }
    assert(all.take(i as int) == all);
    out
}

/// A statement that fits is shown whole and without a digest; a longer one is shown by its first
/// characters, an ellipsis after them, and carries the digest of the whole.
pub proof fn only_long_statements_are_cut(query: Seq<char>)
    ensures
        byte_length(trim(query)) <= DIGEST_LIMIT ==> shown_statement(query) == (trim(query), None::<
            Seq<char>,
        >),
        byte_length(trim(query)) > DIGEST_LIMIT ==> {
            let (shown, id) = shown_statement(query);
            &&& shown.last() == '…'
            &&& starts(trim(query), shown.drop_last())
            &&& byte_length(shown.drop_last()) <= DIGEST_LIMIT
            &&& id is Some
        },
{
    let digest = trim(query);
    if byte_length(digest) > DIGEST_LIMIT {
        crate::slow_log::fitting_fits(digest, DIGEST_LIMIT as nat);
        let n = fitting(digest, DIGEST_LIMIT as nat) as int;
        let shown = shown_statement(query).0;
        assert(shown.drop_last() == digest.take(n));
    }
}

} // verus!
