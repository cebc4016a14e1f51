//! Request statistics that alp printed as JSON.
use crate::join::{chain, grouped, ref_views, value_views, with_key, with_key_holds};
use crate::json::{item_views, json_of_text, json_option, member_of, parse_text, Json, JsonView};
use crate::labels::{labels2, lookup, no_labels, with_label, Labels, Pair};
use crate::model::{add_metric, Metric, MetricView};
use crate::moment::{epoch_point, epoch_seconds, from_timestamp, moment_at, Moment};
use crate::number::{apply, arithmetic, is_arithmetic, Number, Op};
use crate::numeral::{is_reader, read_number, reading};
use crate::order::{distinct_sorted, models};
use crate::report::first_of;
use crate::slow_log::{in_ms, milliseconds};
use crate::text::{
    append, append_str, before_char, chars_of, cut_before, decimal, decimal_of, glue3, halves,
    is_blank, lines, lines_of, parsed_signed, same, signed_number, split_once, starts, starts_with,
    string_of, texts, trimmed, views,
};
use crate::transition::{canonical, loaded, LoadedRules, RouteNormalizer, Rule};
use vstd::prelude::*;

verus! {

/// Why an output of alp cannot be used.
#[derive(Debug)]
pub enum AlpError {
    /// The route rules cannot be read.
    Rules(String),
    NotJson,
    /// The header of a table holds something else than texts.
    Header,
    /// A row of a table is not a list.
    Row,
    /// A row of a table has this many fields, and the header this many.
    Fields(usize, usize),
    /// There are records, and none of them has a field that is understood.
    NoFields,
}

impl AlpError {
    pub open spec fn text(self) -> Seq<char> {
        match self {
            AlpError::Rules(error) => error@,
            AlpError::NotJson => "ALP output is not valid JSON"@,
            AlpError::Header => "ALP table header must contain strings"@,
            AlpError::Row => "ALP table row must be an array"@,
            AlpError::Fields(found, wanted) => "ALP table row has "@ + decimal(found as nat)
                + " fields but header has "@ + decimal(wanted as nat),
            AlpError::NoFields =>
                "ALP JSON contained records but no supported count/p95 fields"@,
        }
    }

    pub fn message(&self) -> (r: String)
        ensures
            r@ == self.text(),
    {
        match self {
            AlpError::Rules(error) => error.clone(),
            AlpError::NotJson => "ALP output is not valid JSON".to_owned(),
            AlpError::Header => "ALP table header must contain strings".to_owned(),
            AlpError::Row => "ALP table row must be an array".to_owned(),
            AlpError::Fields(found, wanted) => {
                let mut out = chars_of("ALP table row has ");
                append(&mut out, decimal_of(*found as u64).as_slice());
                append_str(&mut out, " fields but header has ");
                append(&mut out, decimal_of(*wanted as u64).as_slice());
                string_of(out.as_slice())
            },
            AlpError::NoFields => {
                "ALP JSON contained records but no supported count/p95 fields".to_owned()
            },
        }
    }
}

pub enum AlpFault {
    Rules(Seq<char>),
    NotJson,
    Header,
    Row,
    Fields(nat, nat),
    NoFields,
}

impl View for AlpError {
    type V = AlpFault;

    open spec fn view(&self) -> AlpFault {
        match self {
            AlpError::Rules(error) => AlpFault::Rules(error@),
            AlpError::NotJson => AlpFault::NotJson,
            AlpError::Header => AlpFault::Header,
            AlpError::Row => AlpFault::Row,
            AlpError::Fields(a, b) => AlpFault::Fields(*a as nat, *b as nat),
            AlpError::NoFields => AlpFault::NoFields,
        }
    }
}

/// One record of statistics.
pub enum RecordView {
    Object(JsonView),
    /// A row of a table below its header.
    Row(Seq<Seq<char>>, Seq<JsonView>),
}

/// The value in the last column with this name.
pub open spec fn cell(header: Seq<Seq<char>>, row: Seq<JsonView>, name: Seq<char>) -> Option<JsonView>
    decreases header.len(),
{
    if header.len() == 0 {
        None
    } else if header.last() == name {
        Some(row[header.len() - 1])
    } else {
        cell(header.drop_last(), row, name)
    }
}

impl RecordView {
    /// The record is an object or a row, and not a value of another kind.
    pub open spec fn has_fields(self) -> bool {
        self matches RecordView::Object(value) ==> value is Object
    }

    pub open spec fn field(self, name: Seq<char>) -> Option<JsonView> {
        match self {
            RecordView::Object(value) => value.member(name),
            RecordView::Row(header, row) => cell(header, row, name),
        }
    }

    pub open spec fn text(self, name: Seq<char>) -> Option<Seq<char>> {
        match self.field(name) {
            Some(value) => value.text(),
            None => None,
        }
    }

    /// A number, or a text that writes one.
    pub open spec fn number(
        self,
        number: spec_fn(Seq<char>) -> Option<Number>,
        name: Seq<char>,
    ) -> Option<Number> {
        match self.field(name) {
            Some(JsonView::Number(n)) => Some(n.value),
            Some(JsonView::Text(text)) => number(text),
            _ => None,
        }
    }
}

/// A record of statistics.
#[derive(Clone, Copy, Debug)]
pub enum Record<'a> {
    Object(&'a Json),
    Row(&'a Vec<String>, &'a Vec<Json>),
}

impl<'a> View for Record<'a> {
    type V = RecordView;

    open spec fn view(&self) -> RecordView {
        match self {
            Record::Object(value) => RecordView::Object((*value)@),
            Record::Row(header, row) => RecordView::Row(
                texts((*header)@),
                item_views((*row)@),
            ),
        }
    }
}

impl<'a> Record<'a> {
    /// A row has as many fields as the header names.
    pub open spec fn fits(self) -> bool {
        self matches Record::Row(header, row) ==> header@.len() == row@.len()
    }

    fn field(&self, name: &str) -> (r: Option<&'a Json>)
        requires
            self.fits(),
        ensures
            match r {
                Some(value) => self@.field(name@) == Some(value@),
                None => self@.field(name@) is None,
            },
    {
        match *self {
            Record::Object(value) => value.get(name),
            Record::Row(header, row) => {
                let ghost all = texts(header@);
                let mut n: usize = header.len();
                assert(all.take(n as int) == all);
                while n > 0
                    invariant
                        n <= header@.len(),
                        header@.len() == row@.len(),
                        all == texts(header@),
                        self@.field(name@) == cell(all, item_views(row@), name@),
                        cell(all, item_views(row@), name@) == cell(
                            all.take(n as int),
                            item_views(row@),
                            name@,
                        ),
                    decreases n,
                {
                    assert(all.take(n as int).last() == header@[n - 1]@);
                    assert(all.take(n as int).drop_last() == all.take(n - 1));
                    if same(header[n - 1].as_str(), name) {
                        return Some(&row[n - 1]);
                    }
                    n -= 1;
                }
                None
            },
        }
    }

    pub fn text(&self, name: &str) -> (r: Option<&'a String>)
        requires
            self.fits(),
        ensures
            match r {
                Some(s) => self@.text(name@) == Some(s@),
                None => self@.text(name@) is None,
            },
    {
        match self.field(name) {
            Some(Json::Text(s)) => Some(s),
            _ => None,
        }
    }

    pub fn number<R: Fn(&str) -> Option<Number>>(&self, name: &str, read: &R) -> (r: Option<Number>)
        requires
            self.fits(),
            is_reader(*read),
        ensures
            r == self@.number(reading(*read), name@),
    {
        match self.field(name) {
            Some(Json::Number(n)) => Some(n.value),
            Some(Json::Text(s)) => read_number(read, chars_of(s.as_str()).as_slice()),
            _ => None,
        }
    }
}

/// The records of a value that is no table: a list, the list in the member `data` or else
/// `results` of an object, or the object itself.
pub open spec fn plain_records(value: JsonView) -> Seq<JsonView> {
    match value {
        JsonView::List(items) => items,
        JsonView::Object(members) => {
            let inner = match member_of(members, "data"@) {
                Some(data) => Some(data),
                None => member_of(members, "results"@),
            };
            match inner {
                Some(JsonView::List(items)) => items,
                _ => seq![value],
            }
        },
        _ => Seq::empty(),
    }
}

/// Lists the records of a value that is no table.
pub fn json_records(value: &Json) -> (r: Vec<&Json>)
    ensures
        ref_views(r@) == plain_records(value@),
{
    let mut out: Vec<&Json> = Vec::new();
    proof {
        value.parts();
    }
    let items: Option<&Vec<Json>> = match value {
        Json::List(items) => Some(items),
        Json::Object(_) => {
            let inner = match value.get("data") {
                Some(data) => Some(data),
                None => value.get("results"),
            };
            match inner {
                Some(found) => {
                    proof {
                        found.parts();
                    }
                    match found {
                        Json::List(items) => Some(items),
                        _ => None,
                    }
                },
                None => None,
            }
        },
        _ => {
            assert(ref_views(out@) == Seq::<JsonView>::empty());
            return out;
        },
    };
    match items {
        Some(list) => {
            let ghost all = item_views(list@);
            let mut i: usize = 0;
            assert(ref_views(out@) == all.take(0));
            while i < list.len()
                invariant
                    i <= list@.len(),
                    all == item_views(list@),
                    ref_views(out@) == all.take(i as int),
                decreases list.len() - i,
            {
                let ghost was = out@;
                out.push(&list[i]);
                assert(ref_views(out@) == ref_views(was).push(list@[i as int]@));
                assert(all.take(i + 1) == all.take(i as int).push(all[i as int]));
                i += 1;
            }
            assert(all.take(i as int) == all);
        },
        None => {
            out.push(value);
            assert(ref_views(out@) == seq![value@]);
        },
    }
    out
}

pub open spec fn is_text() -> spec_fn(JsonView) -> bool {
    |v: JsonView| v is Text
}

/// A table: a list whose first item is a list.
pub open spec fn is_table(value: JsonView) -> bool {
    value matches JsonView::List(items) && items.len() > 0 && items[0] is List
}

pub open spec fn header_texts(header: Seq<JsonView>) -> Seq<Seq<char>> {
    header.map_values(|v: JsonView| v->Text_0)
}

/// What is wrong with the rows of a table, from the first that is wrong.
pub open spec fn row_fault(rows: Seq<JsonView>, width: nat) -> Option<AlpFault>
    decreases rows.len(),
{
    if rows.len() == 0 {
        None
    } else {
        match rows[0] {
            JsonView::List(row) => if row.len() != width {
                Some(AlpFault::Fields(row.len(), width))
            } else {
                row_fault(rows.skip(1), width)
            },
            _ => Some(AlpFault::Row),
        }
    }
}

/// The records of an output of alp: a table, or what `plain_records` says.
pub open spec fn alp_records(value: JsonView) -> Result<Seq<RecordView>, AlpFault> {
    if is_table(value) {
        let items = value->List_0;
        let header = items[0]->List_0;
        let rows = items.skip(1);
        if exists|i: int| 0 <= i < header.len() && !((#[trigger] header[i]) is Text) {
            Err(AlpFault::Header)
        } else {
            match row_fault(rows, header.len()) {
                Some(fault) => Err(fault),
                None => Ok(
                    rows.map_values(
                        |r: JsonView| RecordView::Row(header_texts(header), r->List_0),
                    ),
                ),
            }
        }
    } else {
        Ok(plain_records(value).map_values(|v: JsonView| RecordView::Object(v)))
    }
}

fn header_from(header: &Vec<Json>) -> (r: Option<Vec<String>>)
    ensures
        match r {
            Some(names) => texts(names@) == header_texts(item_views(header@)) && forall|i: int|
                0 <= i < header@.len() ==> (#[trigger] item_views(header@)[i]) is Text,
            None => exists|i: int|
                0 <= i < header@.len() && !((#[trigger] item_views(header@)[i]) is Text),
        },
{
    let ghost all = item_views(header@);
    let mut out: Vec<String> = Vec::new();
    let mut i: usize = 0;
    while i < header.len()
        invariant
            i <= header@.len(),
            all == item_views(header@),
            texts(out@) == header_texts(all.take(i as int)),
            forall|j: int| 0 <= j < i ==> (#[trigger] all[j]) is Text,
        decreases header.len() - i,
    {
        assert(all[i as int] == header@[i as int]@);
        match &header[i] {
            Json::Text(s) => {
                let ghost was = out@;
                out.push(s.clone());
                assert(texts(out@) == texts(was).push(s@));
                assert(header_texts(all.take(i + 1)) == header_texts(all.take(i as int)).push(s@));
            },
            _ => {
                return None;
            },
        }
        i += 1;
    }
    assert(all.take(i as int) == all);
    Some(out)
}

/// The numbers that one record gives.
#[derive(Clone, Copy, Debug, PartialEq, Eq, Structural)]
pub struct Readings {
    pub count: Option<Number>,
    pub sum: Option<Number>,
    pub average: Option<Number>,
    pub smallest: Option<Number>,
    pub largest: Option<Number>,
    pub p50: Option<Number>,
    pub p95: Option<Number>,
    pub p99: Option<Number>,
    pub class1: Option<Number>,
    pub class2: Option<Number>,
    pub class3: Option<Number>,
    pub class4: Option<Number>,
    pub class5: Option<Number>,
    pub bytes: Option<Number>,
}

/// One record with its method and its canonical route.
#[derive(Debug)]
pub struct AlpRow {
    pub method: String,
    pub route: String,
    pub readings: Readings,
}

#[verifier::ext_equal]
pub struct AlpRowView {
    pub method: Seq<char>,
    pub route: Seq<char>,
    pub readings: Readings,
}

impl View for AlpRow {
    type V = AlpRowView;

    open spec fn view(&self) -> AlpRowView {
        AlpRowView { method: self.method@, route: self.route@, readings: self.readings }
    }
}

pub open spec fn three(
    r: RecordView,
    number: spec_fn(Seq<char>) -> Option<Number>,
    a: Seq<char>,
    b: Seq<char>,
    c: Seq<char>,
) -> Option<Number> {
    first_of(first_of(r.number(number, a), r.number(number, b)), r.number(number, c))
}

/// The numbers of a record, under any of the names that they go by.
pub open spec fn readings_of(
    r: RecordView,
    number: spec_fn(Seq<char>) -> Option<Number>,
) -> Readings {
    Readings {
        count: first_of(r.number(number, "count"@), r.number(number, "requests"@)),
        sum: three(r, number, "sum"@, "sum_time"@, "request_time_sum"@),
        average: three(r, number, "avg"@, "average"@, "request_time_avg"@),
        smallest: three(r, number, "min"@, "min_time"@, "request_time_min"@),
        largest: three(r, number, "max"@, "max_time"@, "request_time_max"@),
        p50: three(r, number, "p50"@, "p50_time"@, "request_time_p50"@),
        p95: three(r, number, "p95"@, "p95_time"@, "request_time_p95"@),
        p99: three(r, number, "p99"@, "p99_time"@, "request_time_p99"@),
        class1: r.number(number, "1xx"@),
        class2: r.number(number, "2xx"@),
        class3: r.number(number, "3xx"@),
        class4: r.number(number, "4xx"@),
        class5: r.number(number, "5xx"@),
        bytes: first_of(
            first_of(
                first_of(r.number(number, "response_bytes"@), r.number(number, "body_bytes_sent"@)),
                r.number(number, "sum_body_bytes_sent"@),
            ),
            r.number(number, "sum_body"@),
        ),
    }
}

fn either(a: Option<Number>, b: Option<Number>) -> (r: Option<Number>)
    ensures
        r == first_of(a, b),
{
    match a {
        Some(n) => Some(n),
        None => b,
    }
}

fn read_three<R: Fn(&str) -> Option<Number>>(
    record: &Record<'_>,
    a: &str,
    b: &str,
    c: &str,
    read: &R,
) -> (r: Option<Number>)
    requires
        record.fits(),
        is_reader(*read),
    ensures
        r == three(record@, reading(*read), a@, b@, c@),
{
    either(either(record.number(a, read), record.number(b, read)), record.number(c, read))
}

fn read_record<R: Fn(&str) -> Option<Number>>(record: &Record<'_>, read: &R) -> (r: Readings)
    requires
        record.fits(),
        is_reader(*read),
    ensures
        r == readings_of(record@, reading(*read)),
{
    Readings {
        count: either(record.number("count", read), record.number("requests", read)),
        sum: read_three(record, "sum", "sum_time", "request_time_sum", read),
        average: read_three(record, "avg", "average", "request_time_avg", read),
        smallest: read_three(record, "min", "min_time", "request_time_min", read),
        largest: read_three(record, "max", "max_time", "request_time_max", read),
        p50: read_three(record, "p50", "p50_time", "request_time_p50", read),
        p95: read_three(record, "p95", "p95_time", "request_time_p95", read),
        p99: read_three(record, "p99", "p99_time", "request_time_p99", read),
        class1: record.number("1xx", read),
        class2: record.number("2xx", read),
        class3: record.number("3xx", read),
        class4: record.number("4xx", read),
        class5: record.number("5xx", read),
        bytes: either(
            either(
                either(
                    record.number("response_bytes", read),
                    record.number("body_bytes_sent", read),
                ),
                record.number("sum_body_bytes_sent", read),
            ),
            record.number("sum_body", read),
        ),
    }
}

pub open spec fn first_text(a: Option<Seq<char>>, b: Option<Seq<char>>) -> Option<Seq<char>> {
    match a {
        Some(s) => Some(s),
        None => b,
    }
}

/// The row of a record: none where it names no route.
pub open spec fn row_of(
    rules: Seq<Rule>,
    number: spec_fn(Seq<char>) -> Option<Number>,
    r: RecordView,
) -> Option<AlpRowView> {
    if !r.has_fields() {
        None
    } else {
        match first_text(first_text(r.text("uri"@), r.text("route"@)), r.text("path"@)) {
            Some(route) => Some(
                AlpRowView {
                    method: match r.text("method"@) {
                        Some(method) => method,
                        None => "-"@,
                    },
                    route: canonical(rules, before_char(route, '?')),
                    readings: readings_of(r, number),
                },
            ),
            None => None,
        }
    }
}

pub open spec fn pick_row(
    rules: Seq<Rule>,
    number: spec_fn(Seq<char>) -> Option<Number>,
) -> spec_fn(RecordView) -> Option<AlpRowView> {
    |r: RecordView| row_of(rules, number, r)
}

fn row_from<R: Fn(&str) -> Option<Number>>(
    record: &Record<'_>,
    rules: &RouteNormalizer,
    read: &R,
) -> (r: Option<AlpRow>)
    requires
        record.fits(),
        is_reader(*read),
    ensures
        match r {
            Some(row) => row_of(rules@, reading(*read), record@) == Some(row@),
            None => row_of(rules@, reading(*read), record@) is None,
        },
{
    match record {
        Record::Object(value) => {
            proof {
                value.parts();
            }
            match value {
                Json::Object(_) => {},
                _ => {
                    return None;
                },
            }
        },
        Record::Row(_, _) => {},
    }
    let route = match record.text("uri") {
        Some(s) => s,
        None => match record.text("route") {
            Some(s) => s,
            None => match record.text("path") {
                Some(s) => s,
                None => {
                    return None;
                },
            },
        },
    };
    let path = string_of(cut_before(chars_of(route.as_str()).as_slice(), '?').as_slice());
    let method = match record.text("method") {
        Some(s) => s.clone(),
        None => "-".to_owned(),
    };
    Some(
        AlpRow {
            method,
            route: rules.normalize(path.as_str()),
            readings: read_record(record, read),
        },
    )
}

/// What the records of one route come to.
#[derive(Clone, Copy, Debug, PartialEq, Eq, Structural)]
pub struct RouteStats {
    pub count: Number,
    pub sum: Option<Number>,
    pub average: Option<Number>,
    pub smallest: Option<Number>,
    pub largest: Option<Number>,
    pub p50: Option<Number>,
    pub p95: Option<Number>,
    pub p99: Option<Number>,
    pub class1: Option<Number>,
    pub class2: Option<Number>,
    pub class3: Option<Number>,
    pub class4: Option<Number>,
    pub class5: Option<Number>,
    pub bytes: Option<Number>,
}

pub open spec fn no_stats() -> RouteStats {
    RouteStats {
        count: Number::zero_spec(),
        sum: None,
        average: None,
        smallest: None,
        largest: None,
        p50: None,
        p95: None,
        p99: None,
        class1: None,
        class2: None,
        class3: None,
        class4: None,
        class5: None,
        bytes: None,
    }
}

pub open spec fn zero_or(value: Option<Number>) -> Number {
    match value {
        Some(n) => n,
        None => Number::zero_spec(),
    }
}

/// A sum with one more value, where there is one.
pub open spec fn plus(f: spec_fn(Op) -> Number, sum: Option<Number>, value: Option<Number>) -> Option<
    Number,
> {
    match value {
        Some(n) => Some(f(Op::Add(zero_or(sum), n))),
        None => sum,
    }
}

pub open spec fn larger(a: Option<Number>, b: Option<Number>) -> Option<Number> {
    match (a, b) {
        (Some(x), Some(y)) => Some(Number::max_spec(x, y)),
        (Some(x), None) => Some(x),
        (None, y) => y,
    }
}

pub open spec fn smaller(a: Option<Number>, b: Option<Number>) -> Option<Number> {
    match (a, b) {
        (Some(x), Some(y)) => Some(Number::min_spec(x, y)),
        (Some(x), None) => Some(x),
        (None, y) => y,
    }
}

/// The statistics with one more record: counts, sums and bytes add up, the average is the last one
/// given, and of the quantiles the largest stays.
pub open spec fn with_record(f: spec_fn(Op) -> Number, s: RouteStats, r: Readings) -> RouteStats {
    RouteStats {
        count: f(Op::Add(s.count, zero_or(r.count))),
        sum: plus(f, s.sum, r.sum),
        average: first_of(r.average, s.average),
        smallest: smaller(s.smallest, r.smallest),
        largest: larger(s.largest, r.largest),
        p50: larger(s.p50, r.p50),
        p95: larger(s.p95, r.p95),
        p99: larger(s.p99, r.p99),
        class1: plus(f, s.class1, r.class1),
        class2: plus(f, s.class2, r.class2),
        class3: plus(f, s.class3, r.class3),
        class4: plus(f, s.class4, r.class4),
        class5: plus(f, s.class5, r.class5),
        bytes: plus(f, s.bytes, r.bytes),
    }
}

pub open spec fn stats_of(f: spec_fn(Op) -> Number, rows: Seq<AlpRowView>) -> RouteStats
    decreases rows.len(),
{
    if rows.len() == 0 {
        no_stats()
    } else {
        with_record(f, stats_of(f, rows.drop_last()), rows.last().readings)
    }
}

fn zero_of(value: Option<Number>) -> (r: Number)
    ensures
        r == zero_or(value),
{
    match value {
        Some(n) => n,
        None => Number::zero(),
    }
}

fn add_to<F: Fn(Op) -> Number>(sum: Option<Number>, value: Option<Number>, compute: &F) -> (r: Option<
    Number,
>)
    requires
        is_arithmetic(*compute),
    ensures
        r == plus(arithmetic(*compute), sum, value),
{
    match value {
        Some(n) => Some(apply(compute, Op::Add(zero_of(sum), n))),
        None => sum,
    }
}

fn larger_of(a: Option<Number>, b: Option<Number>) -> (r: Option<Number>)
    ensures
        r == larger(a, b),
{
    match (a, b) {
        (Some(x), Some(y)) => Some(Number::max(x, y)),
        (Some(x), None) => Some(x),
        (None, y) => y,
    }
}

fn smaller_of(a: Option<Number>, b: Option<Number>) -> (r: Option<Number>)
    ensures
        r == smaller(a, b),
{
    match (a, b) {
        (Some(x), Some(y)) => Some(Number::min(x, y)),
        (Some(x), None) => Some(x),
        (None, y) => y,
    }
}

fn absorb<F: Fn(Op) -> Number>(s: RouteStats, r: &Readings, compute: &F) -> (out: RouteStats)
    requires
        is_arithmetic(*compute),
    ensures
        out == with_record(arithmetic(*compute), s, *r),
{
    RouteStats {
        count: apply(compute, Op::Add(s.count, zero_of(r.count))),
        sum: add_to(s.sum, r.sum, compute),
        average: either(r.average, s.average),
        smallest: smaller_of(s.smallest, r.smallest),
        largest: larger_of(s.largest, r.largest),
        p50: larger_of(s.p50, r.p50),
        p95: larger_of(s.p95, r.p95),
        p99: larger_of(s.p99, r.p99),
        class1: add_to(s.class1, r.class1, compute),
        class2: add_to(s.class2, r.class2, compute),
        class3: add_to(s.class3, r.class3, compute),
        class4: add_to(s.class4, r.class4, compute),
        class5: add_to(s.class5, r.class5, compute),
        bytes: add_to(s.bytes, r.bytes, compute),
    }
}

fn gather_stats<F: Fn(Op) -> Number>(members: &Vec<&AlpRow>, compute: &F) -> (r: RouteStats)
    requires
        is_arithmetic(*compute),
    ensures
        r == stats_of(arithmetic(*compute), ref_views(members@)),
{
    let ghost f = arithmetic(*compute);
    let ghost all = ref_views(members@);
    let mut s = RouteStats {
        count: Number::zero(),
        sum: None,
        average: None,
        smallest: None,
        largest: None,
        p50: None,
        p95: None,
        p99: None,
        class1: None,
        class2: None,
        class3: None,
        class4: None,
        class5: None,
        bytes: None,
    };
    let mut i: usize = 0;
    assert(all.take(0) == Seq::<AlpRowView>::empty());
    while i < members.len()
        invariant
            is_arithmetic(*compute),
            f == arithmetic(*compute),
            i <= members@.len(),
            all == ref_views(members@),
            s == stats_of(f, all.take(i as int)),
        decreases members.len() - i,
    {
        assert(all.take(i + 1).drop_last() == all.take(i as int));
        assert(all.take(i + 1).last() == members@[i as int]@);
        s = absorb(s, &members[i].readings, compute);
        i += 1;
    }
    assert(all.take(i as int) == all);
    s
}

/// A metric where there is a value for it.
pub open spec fn maybe(
    name: Seq<char>,
    value: Option<Number>,
    unit: Seq<char>,
    labels: Seq<Pair>,
) -> Seq<MetricView> {
    match value {
        Some(n) => seq![MetricView { name, value: n, unit, timestamp: None, labels }],
        None => Seq::empty(),
    }
}

pub fn add_maybe(
    out: &mut Vec<Metric>,
    name: &str,
    value: Option<Number>,
    unit: &str,
    labels: &Labels,
)
    ensures
        value_views(final(out)@) == value_views(old(out)@) + maybe(name@, value, unit@, labels@),
{
    let ghost before = value_views(out@);
    match value {
        Some(n) => {
            add_metric(out, name, n, unit, None, labels);
        },
        None => {},
    }
    assert(value_views(out@) == before + maybe(name@, value, unit@, labels@));
}

pub open spec fn ms_option(f: spec_fn(Op) -> Number, seconds: Option<Number>) -> Option<Number> {
    match seconds {
        Some(n) => Some(in_ms(f, n)),
        None => None,
    }
}

pub fn optional_ms<F: Fn(Op) -> Number>(seconds: Option<Number>, compute: &F) -> (r: Option<Number>)
    requires
        is_arithmetic(*compute),
    ensures
        r == ms_option(arithmetic(*compute), seconds),
{
    match seconds {
        Some(n) => Some(milliseconds(n, compute)),
        None => None,
    }
}

pub open spec fn counted_requests(s: RouteStats) -> Option<Number> {
    if s.count.is_positive_spec() {
        Some(s.count)
    } else {
        None
    }
}

/// The failed requests, where the records tell the status classes.
pub open spec fn failed_requests(f: spec_fn(Op) -> Number, s: RouteStats) -> Option<Number> {
    if s.class1 is Some || s.class2 is Some || s.class3 is Some || s.class4 is Some
        || s.class5 is Some {
        Some(f(Op::Add(zero_or(s.class4), zero_or(s.class5))))
    } else {
        None
    }
}

/// The mean duration: the sum divided by the count, or else the average that was given.
pub open spec fn mean_seconds(f: spec_fn(Op) -> Number, s: RouteStats) -> Option<Number> {
    match s.sum {
        Some(sum) => if s.count.is_positive_spec() {
            Some(f(Op::Divide(sum, s.count)))
        } else {
            s.average
        },
        None => s.average,
    }
}

pub open spec fn route_labels(method: Seq<char>, route: Seq<char>) -> Seq<Pair> {
    with_label(with_label(no_labels(), "method"@, method), "route"@, route)
}

pub open spec fn class_row(labels: Seq<Pair>, class: Seq<char>, value: Option<Number>) -> Seq<
    MetricView,
> {
    maybe("http.requests"@, value, "requests"@, with_label(labels, "status_class"@, class))
}

pub open spec fn quantile_row(
    f: spec_fn(Op) -> Number,
    labels: Seq<Pair>,
    quantile: Seq<char>,
    seconds: Option<Number>,
) -> Seq<MetricView> {
    maybe(
        "http.request_duration"@,
        ms_option(f, seconds),
        "ms"@,
        with_label(labels, "quantile"@, quantile),
    )
}

/// The metrics of the requests of one route.
#[verifier::opaque]
pub open spec fn request_rows(f: spec_fn(Op) -> Number, labels: Seq<Pair>, s: RouteStats) -> Seq<
    MetricView,
> {
    maybe("http.requests"@, counted_requests(s), "requests"@, labels) + class_row(
        labels,
        "1xx"@,
        s.class1,
    ) + class_row(labels, "2xx"@, s.class2) + class_row(labels, "3xx"@, s.class3) + class_row(
        labels,
        "4xx"@,
        s.class4,
    ) + class_row(labels, "5xx"@, s.class5) + maybe(
        "http.errors"@,
        failed_requests(f, s),
        "requests"@,
        labels,
    )
}

/// The metrics of the durations of one route.
#[verifier::opaque]
pub open spec fn duration_rows(f: spec_fn(Op) -> Number, labels: Seq<Pair>, s: RouteStats) -> Seq<
    MetricView,
> {
    maybe("http.request_duration_sum"@, ms_option(f, s.sum), "ms"@, labels) + maybe(
        "http.request_duration_mean"@,
        ms_option(f, mean_seconds(f, s)),
        "ms"@,
        labels,
    ) + maybe("http.request_duration_min"@, ms_option(f, s.smallest), "ms"@, labels) + maybe(
        "http.request_duration_max"@,
        ms_option(f, s.largest),
        "ms"@,
        labels,
    ) + quantile_row(f, labels, "0.50"@, s.p50) + quantile_row(f, labels, "0.95"@, s.p95)
        + quantile_row(f, labels, "0.99"@, s.p99)
}

/// The metrics of one route.
pub open spec fn route_rows(f: spec_fn(Op) -> Number, labels: Seq<Pair>, s: RouteStats) -> Seq<
    MetricView,
> {
    request_rows(f, labels, s) + duration_rows(f, labels, s) + maybe(
        "http.response_bytes"@,
        s.bytes,
        "bytes"@,
        labels,
    )
}

proof fn three_pieces<T>(x: Seq<T>, a: Seq<T>, b: Seq<T>, c: Seq<T>)
    ensures
        x + a + b + c == x + (a + b + c),
{
}

proof fn seven<T>(
    x: Seq<T>,
    a: Seq<T>,
    b: Seq<T>,
    c: Seq<T>,
    d: Seq<T>,
    e: Seq<T>,
    g: Seq<T>,
    h: Seq<T>,
)
    ensures
        x + a + b + c + d + e + g + h == x + (a + b + c + d + e + g + h),
{
}

fn add_class(out: &mut Vec<Metric>, labels: &Labels, class: &str, value: Option<Number>)
    ensures
        value_views(final(out)@) == value_views(old(out)@) + class_row(labels@, class@, value),
{
    let mut marked = labels.clone();
    marked.insert("status_class".to_owned(), class.to_owned());
    add_maybe(out, "http.requests", value, "requests", &marked);
}

fn add_quantile<F: Fn(Op) -> Number>(
    out: &mut Vec<Metric>,
    labels: &Labels,
    quantile: &str,
    seconds: Option<Number>,
    compute: &F,
)
    requires
        is_arithmetic(*compute),
    ensures
        value_views(final(out)@) == value_views(old(out)@) + quantile_row(
            arithmetic(*compute),
            labels@,
            quantile@,
            seconds,
        ),
{
    let mut marked = labels.clone();
    marked.insert("quantile".to_owned(), quantile.to_owned());
    let ms = optional_ms(seconds, compute);
    add_maybe(out, "http.request_duration", ms, "ms", &marked);
}

fn add_requests<F: Fn(Op) -> Number>(
    out: &mut Vec<Metric>,
    labels: &Labels,
    s: &RouteStats,
    compute: &F,
)
    requires
        is_arithmetic(*compute),
    ensures
        value_views(final(out)@) == value_views(old(out)@) + request_rows(
            arithmetic(*compute),
            labels@,
            *s,
        ),
{
    let ghost before = value_views(out@);
    let counted = if s.count.is_positive() {
        Some(s.count)
    } else {
        None
    };
    add_maybe(out, "http.requests", counted, "requests", labels);
    add_class(out, labels, "1xx", s.class1);
    add_class(out, labels, "2xx", s.class2);
    add_class(out, labels, "3xx", s.class3);
    add_class(out, labels, "4xx", s.class4);
    add_class(out, labels, "5xx", s.class5);
    let failed = if s.class1.is_some() || s.class2.is_some() || s.class3.is_some()
        || s.class4.is_some() || s.class5.is_some() {
        Some(apply(compute, Op::Add(zero_of(s.class4), zero_of(s.class5))))
    } else {
        None
    };
    add_maybe(out, "http.errors", failed, "requests", labels);
    proof {
        reveal(request_rows);
        seven(
            before,
            maybe("http.requests"@, counted, "requests"@, labels@),
            class_row(labels@, "1xx"@, s.class1),
            class_row(labels@, "2xx"@, s.class2),
            class_row(labels@, "3xx"@, s.class3),
            class_row(labels@, "4xx"@, s.class4),
            class_row(labels@, "5xx"@, s.class5),
            maybe("http.errors"@, failed, "requests"@, labels@),
        );
    }
}

fn add_durations<F: Fn(Op) -> Number>(
    out: &mut Vec<Metric>,
    labels: &Labels,
    s: &RouteStats,
    compute: &F,
)
    requires
        is_arithmetic(*compute),
    ensures
        value_views(final(out)@) == value_views(old(out)@) + duration_rows(
            arithmetic(*compute),
            labels@,
            *s,
        ),
{
    let ghost before = value_views(out@);
    let ghost f = arithmetic(*compute);
    let sum = optional_ms(s.sum, compute);
    add_maybe(out, "http.request_duration_sum", sum, "ms", labels);
    let average = match s.sum {
        Some(total) => if s.count.is_positive() {
            Some(apply(compute, Op::Divide(total, s.count)))
        } else {
            s.average
        },
        None => s.average,
    };
    let mean = optional_ms(average, compute);
    add_maybe(out, "http.request_duration_mean", mean, "ms", labels);
    let smallest = optional_ms(s.smallest, compute);
    add_maybe(out, "http.request_duration_min", smallest, "ms", labels);
    let largest = optional_ms(s.largest, compute);
    add_maybe(out, "http.request_duration_max", largest, "ms", labels);
    add_quantile(out, labels, "0.50", s.p50, compute);
    add_quantile(out, labels, "0.95", s.p95, compute);
    add_quantile(out, labels, "0.99", s.p99, compute);
    proof {
        reveal(duration_rows);
        seven(
            before,
            maybe("http.request_duration_sum"@, sum, "ms"@, labels@),
            maybe("http.request_duration_mean"@, mean, "ms"@, labels@),
            maybe("http.request_duration_min"@, smallest, "ms"@, labels@),
            maybe("http.request_duration_max"@, largest, "ms"@, labels@),
            quantile_row(f, labels@, "0.50"@, s.p50),
            quantile_row(f, labels@, "0.95"@, s.p95),
            quantile_row(f, labels@, "0.99"@, s.p99),
        );
    }
}

fn add_route<F: Fn(Op) -> Number>(
    out: &mut Vec<Metric>,
    labels: &Labels,
    s: &RouteStats,
    compute: &F,
)
    requires
        is_arithmetic(*compute),
    ensures
        value_views(final(out)@) == value_views(old(out)@) + route_rows(
            arithmetic(*compute),
            labels@,
            *s,
        ),
{
    let ghost before = value_views(out@);
    let ghost f = arithmetic(*compute);
    add_requests(out, labels, s, compute);
    add_durations(out, labels, s, compute);
    add_maybe(out, "http.response_bytes", s.bytes, "bytes", labels);
    proof {
        three_pieces(
            before,
            request_rows(f, labels@, *s),
            duration_rows(f, labels@, *s),
            maybe("http.response_bytes"@, s.bytes, "bytes"@, labels@),
        );
    }
}

pub open spec fn by_method_and_route() -> spec_fn(AlpRowView) -> (Seq<char>, Seq<char>) {
    |r: AlpRowView| (r.method, r.route)
}

pub open spec fn rows_of_route(f: spec_fn(Op) -> Number, rows: Seq<AlpRowView>) -> spec_fn(
    (Seq<char>, Seq<char>),
) -> Seq<MetricView> {
    |k: (Seq<char>, Seq<char>)|
        route_rows(
            f,
            route_labels(k.0, k.1),
            stats_of(f, with_key(rows, by_method_and_route(), k)),
        )
}

/// The metrics of all routes, in the order of methods and routes.
pub open spec fn rows_metrics(f: spec_fn(Op) -> Number, rows: Seq<AlpRowView>) -> Seq<MetricView> {
    chain(
        distinct_sorted::<(String, String)>(rows.map_values(by_method_and_route())).map_values(
            rows_of_route(f, rows),
        ),
    )
}

fn route_metrics<F: Fn(Op) -> Number>(rows: &Vec<AlpRow>, compute: &F) -> (out: Vec<Metric>)
    requires
        is_arithmetic(*compute),
    ensures
        value_views(out@) == rows_metrics(arithmetic(*compute), value_views(rows@)),
{
    let ghost f = arithmetic(*compute);
    let ghost all = value_views(rows@);
    let mut keys: Vec<(String, String)> = Vec::new();
    let mut i: usize = 0;
    while i < rows.len()
        invariant
            i <= rows@.len(),
            all == value_views(rows@),
            models(keys@) == all.take(i as int).map_values(by_method_and_route()),
        decreases rows.len() - i,
    {
        let ghost was = keys@;
        keys.push((rows[i].method.clone(), rows[i].route.clone()));
        assert(models(keys@) == models(was).push(by_method_and_route()(all[i as int])));
        assert(all.take(i + 1).map_values(by_method_and_route()) == all.take(i as int).map_values(
            by_method_and_route(),
        ).push(by_method_and_route()(all[i as int])));
        i += 1;
    }
    assert(all.take(i as int) == all);
    let groups = grouped(rows.as_slice(), &keys, Ghost(by_method_and_route()));
    let ghost names = distinct_sorted::<(String, String)>(all.map_values(by_method_and_route()));
    let ghost each = rows_of_route(f, all);
    let mut out: Vec<Metric> = Vec::new();
    let mut g: usize = 0;
    assert(value_views(out@) == chain(names.take(0).map_values(each)));
    while g < groups.len()
        invariant
            is_arithmetic(*compute),
            f == arithmetic(*compute),
            g <= groups@.len(),
            each == rows_of_route(f, all),
            groups@.len() == names.len(),
            forall|h: int|
                0 <= h < groups@.len() ==> ref_views((#[trigger] groups@[h])@) == with_key(
                    all,
                    by_method_and_route(),
                    names[h],
                ) && groups@[h]@.len() > 0,
            value_views(out@) == chain(names.take(g as int).map_values(each)),
        decreases groups.len() - g,
    {
        let members = &groups[g];
        let ghost k = names[g as int];
        proof {
            with_key_holds(all, by_method_and_route(), k, 0);
            assert(ref_views(members@)[0] == members@[0]@);
        }
        let labels = labels2(
            "method",
            members[0].method.as_str(),
            "route",
            members[0].route.as_str(),
        );
        let stats = gather_stats(members, compute);
        add_route(&mut out, &labels, &stats, compute);
        proof {
            let next = names.take(g + 1).map_values(each);
            assert(next.drop_last() == names.take(g as int).map_values(each));
            assert(next.last() == each(k));
        }
        g += 1;
    }
    assert(names.take(g as int) == names);
    out
}

/// What an output of alp comes to.
pub open spec fn alp_metrics_of(
    f: spec_fn(Op) -> Number,
    number: spec_fn(Seq<char>) -> Option<Number>,
    rules: Seq<Rule>,
    value: Option<JsonView>,
) -> Result<Seq<MetricView>, AlpFault> {
    match value {
        None => Err(AlpFault::NotJson),
        Some(v) => match alp_records(v) {
            Err(fault) => Err(fault),
            Ok(records) => {
                let metrics = rows_metrics(
                    f,
                    crate::protocol::picked(records, pick_row(rules, number)),
                );
                if records.len() > 0 && metrics.len() == 0 {
                    Err(AlpFault::NoFields)
                } else {
                    Ok(metrics)
                }
            },
        },
    }
}

fn collect_rows<R: Fn(&str) -> Option<Number>>(
    records: &Vec<Record<'_>>,
    rules: &RouteNormalizer,
    read: &R,
) -> (out: Vec<AlpRow>)
    requires
        is_reader(*read),
        forall|i: int| 0 <= i < records@.len() ==> (#[trigger] records@[i]).fits(),
    ensures
        value_views(out@) == crate::protocol::picked(
            value_views(records@),
            pick_row(rules@, reading(*read)),
        ),
{
    let ghost all = value_views(records@);
    let ghost pick = pick_row(rules@, reading(*read));
    let mut out: Vec<AlpRow> = Vec::new();
    let mut i: usize = 0;
    assert(all.take(0) == Seq::<RecordView>::empty());
    assert(value_views(out@) == Seq::<AlpRowView>::empty());
    while i < records.len()
        invariant
            is_reader(*read),
            i <= records@.len(),
            forall|j: int| 0 <= j < records@.len() ==> (#[trigger] records@[j]).fits(),
            all == value_views(records@),
            pick == pick_row(rules@, reading(*read)),
            value_views(out@) == crate::protocol::picked(all.take(i as int), pick),
        decreases records.len() - i,
    {
        proof {
            assert(all.take(i + 1).drop_last() == all.take(i as int));
            assert(all.take(i + 1).last() == records@[i as int]@);
        }
        match row_from(&records[i], rules, read) {
            Some(row) => {
                let ghost was = out@;
                out.push(row);
                assert(value_views(out@) == value_views(was).push(row@));
                assert(pick(all[i as int]) == Some(row@));
            },
            None => {
                assert(pick(all[i as int]) is None);
            },
        }
        i += 1;
    }
    assert(all.take(i as int) == all);
    out
}

/// Lists the rows of a table.
fn table_rows<'a>(header: &'a Vec<String>, items: &'a Vec<Json>) -> (r: Result<
    Vec<Record<'a>>,
    AlpError,
>)
    requires
        items@.len() > 0,
    ensures
        match r {
            Ok(records) => row_fault(item_views(items@).skip(1), header@.len()) is None
                && value_views(records@) == item_views(items@).skip(1).map_values(
                |v: JsonView| RecordView::Row(texts(header@), v->List_0),
            ) && forall|i: int| 0 <= i < records@.len() ==> (#[trigger] records@[i]).fits(),
            Err(error) => row_fault(item_views(items@).skip(1), header@.len()) == Some(error@),
        },
{
    let ghost all = item_views(items@);
    let ghost rows = all.skip(1);
    let ghost width = header@.len();
    let ghost each = |v: JsonView| RecordView::Row(texts(header@), v->List_0);
    let mut out: Vec<Record<'a>> = Vec::new();
    let mut i: usize = 1;
    assert(rows.skip(0) == rows);
    assert(value_views(out@) == rows.take(0).map_values(each));
    while i < items.len()
        invariant
            1 <= i <= items@.len(),
            all == item_views(items@),
            rows == all.skip(1),
            width == header@.len(),
            each == (|v: JsonView| RecordView::Row(texts(header@), v->List_0)),
            row_fault(rows, width) == row_fault(rows.skip(i - 1), width),
            value_views(out@) == rows.take(i - 1).map_values(each),
            forall|j: int| 0 <= j < out@.len() ==> (#[trigger] out@[j]).fits(),
        decreases items.len() - i,
    {
        let item = &items[i];
        proof {
            item.parts();
            assert(rows.skip(i - 1)[0] == item@);
            assert(rows.skip(i - 1).skip(1) == rows.skip(i as int));
        }
        match item {
            Json::List(row) => {
                if row.len() != header.len() {
                    return Err(AlpError::Fields(row.len(), header.len()));
                }
                let record = Record::Row(header, row);
                let ghost was = out@;
                out.push(record);
                assert(value_views(out@) == value_views(was).push(record@));
                assert(rows.take(i as int).map_values(each) == rows.take(i - 1).map_values(
                    each,
                ).push(each(item@)));
            },
            _ => {
                return Err(AlpError::Row);
            },
        }
        i += 1;
    }
    assert(rows.take(i - 1) == rows);
    Ok(out)
}

fn finish<F: Fn(Op) -> Number, R: Fn(&str) -> Option<Number>>(
    records: &Vec<Record<'_>>,
    rules: &RouteNormalizer,
    compute: &F,
    read: &R,
) -> (r: Result<Vec<Metric>, AlpError>)
    requires
        is_arithmetic(*compute),
        is_reader(*read),
        forall|i: int| 0 <= i < records@.len() ==> (#[trigger] records@[i]).fits(),
    ensures
        ({
            let metrics = rows_metrics(
                arithmetic(*compute),
                crate::protocol::picked(
                    value_views(records@),
                    pick_row(rules@, reading(*read)),
                ),
            );
            match r {
                Ok(out) => value_views(out@) == metrics && !(records@.len() > 0 && metrics.len()
                    == 0),
                Err(error) => error@ == AlpFault::NoFields && records@.len() > 0 && metrics.len()
                    == 0,
            }
        }),
{
    let rows = collect_rows(records, rules, read);
    let out = route_metrics(&rows, compute);
    assert(value_views(out@).len() == out@.len());
    if records.len() > 0 && out.len() == 0 {
        return Err(AlpError::NoFields);
    }
    Ok(out)
}

/// Turns the JSON value that alp printed, if it is one, into metrics.
pub fn alp_metrics<F: Fn(Op) -> Number, R: Fn(&str) -> Option<Number>>(
    value: &Option<Json>,
    rules: &RouteNormalizer,
    compute: &F,
    read: &R,
) -> (r: Result<Vec<Metric>, AlpError>)
    requires
        is_arithmetic(*compute),
        is_reader(*read),
    ensures
        match r {
            Ok(metrics) => alp_metrics_of(
                arithmetic(*compute),
                reading(*read),
                rules@,
                json_option(*value),
            ) == Ok::<Seq<MetricView>, AlpFault>(value_views(metrics@)),
            Err(error) => alp_metrics_of(
                arithmetic(*compute),
                reading(*read),
                rules@,
                json_option(*value),
            ) == Err::<Seq<MetricView>, AlpFault>(error@),
        },
{
    let value = match value {
        Some(v) => v,
        None => {
            return Err(AlpError::NotJson);
        },
    };
    proof {
        value.parts();
    }
    match value {
        Json::List(items) => {
            if items.len() > 0 {
                let first = &items[0];
                proof {
                    first.parts();
                    assert(item_views(items@)[0] == first@);
                }
                match first {
                    Json::List(header) => {
                        let names = match header_from(header) {
                            Some(names) => names,
                            None => {
                                return Err(AlpError::Header);
                            },
                        };
                        assert(texts(names@).len() == names@.len());
                        let records = match table_rows(&names, items) {
                            Ok(records) => records,
                            Err(error) => {
                                return Err(error);
                            },
                        };
                        assert(value_views(records@).len() == records@.len());
                        return finish(&records, rules, compute, read);
                    },
                    _ => {},
                }
            }
        },
        _ => {},
    }
    let plain = json_records(value);
    let ghost each = |v: JsonView| RecordView::Object(v);
    let ghost all = ref_views(plain@);
    let mut records: Vec<Record<'_>> = Vec::new();
    let mut i: usize = 0;
    assert(value_views(records@) == all.take(0).map_values(each));
    while i < plain.len()
        invariant
            i <= plain@.len(),
            all == ref_views(plain@),
            each == (|v: JsonView| RecordView::Object(v)),
            value_views(records@) == all.take(i as int).map_values(each),
            forall|j: int| 0 <= j < records@.len() ==> (#[trigger] records@[j]).fits(),
        decreases plain.len() - i,
    {
        let record = Record::Object(plain[i]);
        let ghost was = records@;
        records.push(record);
        assert(all[i as int] == plain@[i as int]@);
        assert(value_views(records@) == value_views(was).push(record@));
        assert(all.take(i + 1).map_values(each) == all.take(i as int).map_values(each).push(
            each(all[i as int]),
        ));
        i += 1;
    }
    assert(all.take(i as int) == all);
    assert(value_views(records@).len() == records@.len());
    finish(&records, rules, compute, read)
}

/// What an output of alp comes to with the rules of a project, which are read first.
pub open spec fn routed_metrics(
    f: spec_fn(Op) -> Number,
    number: spec_fn(Seq<char>) -> Option<Number>,
    rules: LoadedRules,
    value: Option<JsonView>,
) -> Result<Seq<MetricView>, AlpFault> {
    match rules {
        Ok(list) => alp_metrics_of(f, number, list, value),
        Err(error) => Err(AlpFault::Rules(error)),
    }
}

/// Reads the JSON that alp printed into metrics.
pub fn parse_alp_json<F: Fn(Op) -> Number, R: Fn(&str) -> Option<Number>>(
    raw: &str,
    rules: &Result<RouteNormalizer, String>,
    compute: &F,
    read: &R,
) -> (r: Result<Vec<Metric>, AlpError>)
    requires
        is_arithmetic(*compute),
        is_reader(*read),
    ensures
        match r {
            Ok(metrics) => routed_metrics(
                arithmetic(*compute),
                reading(*read),
                loaded(*rules),
                json_of_text(raw@),
            ) == Ok::<Seq<MetricView>, AlpFault>(value_views(metrics@)),
            Err(error) => routed_metrics(
                arithmetic(*compute),
                reading(*read),
                loaded(*rules),
                json_of_text(raw@),
            ) == Err::<Seq<MetricView>, AlpFault>(error@),
        },
{
    match rules {
        Ok(rules) => {
            let value = parse_text(raw);
            alp_metrics(&value, rules, compute, read)
        },
        Err(error) => Err(AlpError::Rules(error.clone())),
    }
}

/// Why an output of statistics by window cannot be used.
#[derive(Debug)]
pub enum WindowError {
    /// A line has no tab after the window.
    NoTab,
    /// The statistics of the window cannot be used.
    Statistics(String, AlpError),
    /// The window is not a number of seconds since the epoch.
    NotEpoch(String),
}

impl WindowError {
    /// What is said of a window; why its statistics cannot be used is not repeated.
    pub open spec fn text(self) -> Seq<char> {
        match self {
            WindowError::NoTab => "alp window line has no tab after the window"@,
            WindowError::Statistics(window, _) => "alp output for window "@ + window@
                + " is not valid"@,
            WindowError::NotEpoch(window) => "alp window "@ + window@
                + " is not an epoch second"@,
        }
    }

    pub fn message(&self) -> (r: String)
        ensures
            r@ == self.text(),
    {
        match self {
            WindowError::NoTab => "alp window line has no tab after the window".to_owned(),
            WindowError::Statistics(window, _) => glue3(
                "alp output for window ",
                window.as_str(),
                " is not valid",
            ),
            WindowError::NotEpoch(window) => glue3(
                "alp window ",
                window.as_str(),
                " is not an epoch second",
            ),
        }
    }
}

pub enum WindowFault {
    NoTab,
    Statistics(Seq<char>, AlpFault),
    NotEpoch(Seq<char>),
}

impl View for WindowError {
    type V = WindowFault;

    open spec fn view(&self) -> WindowFault {
        match self {
            WindowError::NoTab => WindowFault::NoTab,
            WindowError::Statistics(window, error) => WindowFault::Statistics(window@, error@),
            WindowError::NotEpoch(window) => WindowFault::NotEpoch(window@),
        }
    }
}

/// What is kept of a window as a series: the counts of requests without their classes, the errors
/// and the quantiles.
pub open spec fn in_series() -> spec_fn(MetricView) -> bool {
    |m: MetricView|
        if m.name == "http.requests"@ {
            lookup(m.labels, "status_class"@) is None
        } else {
            m.name == "http.errors"@ || m.name == "http.request_duration"@
        }
}

pub open spec fn dated(at: Moment) -> spec_fn(MetricView) -> MetricView {
    |m: MetricView| MetricView { timestamp: Some(at), ..m }
}

/// The start of a window: whole seconds since the epoch, or decimal ones in whole microseconds.
pub open spec fn window_start(
    f: spec_fn(Op) -> Number,
    number: spec_fn(Seq<char>) -> Option<Number>,
    window: Seq<char>,
) -> Option<Moment> {
    match parsed_signed(window) {
        Some(seconds) => moment_at(seconds as i64, 0),
        None => match number(window) {
            Some(seconds) => if seconds.is_finite_spec() {
                epoch_point(f, seconds)
            } else {
                None
            },
            None => None,
        },
    }
}

/// What the statistics of one window come to: those of the whole log stay as they are, those of a
/// window become a series.
pub open spec fn window_metrics(
    f: spec_fn(Op) -> Number,
    number: spec_fn(Seq<char>) -> Option<Number>,
    window: Seq<char>,
    metrics: Result<Seq<MetricView>, AlpFault>,
) -> Result<Seq<MetricView>, WindowFault> {
    match metrics {
        Err(fault) => Err(WindowFault::Statistics(window, fault)),
        Ok(all) => if window == "whole"@ {
            Ok(all)
        } else {
            match window_start(f, number, window) {
                Some(at) => Ok(all.filter(in_series()).map_values(dated(at))),
                None => Err(WindowFault::NotEpoch(window)),
            }
        },
    }
}

/// What one line comes to. Blank lines, and lines of records, are passed over.
pub open spec fn window_line(
    f: spec_fn(Op) -> Number,
    number: spec_fn(Seq<char>) -> Option<Number>,
    rules: LoadedRules,
    line: Seq<char>,
) -> Result<Seq<MetricView>, WindowFault> {
    if is_blank(line) || starts(line, "{"@) {
        Ok(Seq::empty())
    } else {
        match split_once(line, "\t"@) {
            None => Err(WindowFault::NoTab),
            Some((window, json)) => window_metrics(
                f,
                number,
                window,
                routed_metrics(f, number, rules, json_of_text(json)),
            ),
        }
    }
}

/// The metrics of all lines, or the fault of the first line that has one.
pub open spec fn all_windows(
    f: spec_fn(Op) -> Number,
    number: spec_fn(Seq<char>) -> Option<Number>,
    rules: LoadedRules,
    log: Seq<Seq<char>>,
) -> Result<Seq<MetricView>, WindowFault>
    decreases log.len(),
{
    if log.len() == 0 {
        Ok(Seq::empty())
    } else {
        match all_windows(f, number, rules, log.drop_last()) {
            Err(fault) => Err(fault),
            Ok(metrics) => match window_line(f, number, rules, log.last()) {
                Err(fault) => Err(fault),
                Ok(more) => Ok(metrics + more),
            },
        }
    }
}

proof fn first_fault_stays(
    f: spec_fn(Op) -> Number,
    number: spec_fn(Seq<char>) -> Option<Number>,
    rules: LoadedRules,
    log: Seq<Seq<char>>,
    i: int,
)
    requires
        0 <= i <= log.len(),
        all_windows(f, number, rules, log.take(i)) is Err,
    ensures
        all_windows(f, number, rules, log) == all_windows(f, number, rules, log.take(i)),
    decreases log.len() - i,
{
    if i < log.len() {
        assert(log.take(i + 1).drop_last() == log.take(i));
        first_fault_stays(f, number, rules, log, i + 1);
    } else {
        assert(log.take(i) == log);
    }
}

fn is_in_series(m: &Metric) -> (r: bool)
    ensures
        r == in_series()(m@),
{
    if same(m.name.as_str(), "http.requests") {
        !m.labels.has("status_class")
    } else {
        same(m.name.as_str(), "http.errors") || same(m.name.as_str(), "http.request_duration")
    }
}

fn read_window<F: Fn(Op) -> Number, R: Fn(&str) -> Option<Number>>(
    window: &[char],
    compute: &F,
    read: &R,
) -> (r: Option<Moment>)
    requires
        is_arithmetic(*compute),
        is_reader(*read),
    ensures
        r == window_start(arithmetic(*compute), reading(*read), window@),
{
    match signed_number(window) {
        Some(seconds) => from_timestamp(seconds, 0),
        None => match read_number(read, window) {
            Some(seconds) => if seconds.is_finite() {
                epoch_seconds(seconds, compute)
            } else {
                None
            },
            None => None,
        },
    }
}

/// Adds what is kept of the statistics of a window.
fn add_window(out: &mut Vec<Metric>, parsed: Vec<Metric>, at: Moment)
    ensures
        value_views(final(out)@) == value_views(old(out)@) + value_views(parsed@).filter(
            in_series(),
        ).map_values(dated(at)),
{
    let ghost all = value_views(parsed@);
    let ghost source = parsed@;
    let ghost before = value_views(out@);
    proof {
        reveal(Seq::filter);
        assert(all.take(0) == Seq::<MetricView>::empty());
        assert(before + all.take(0).filter(in_series()).map_values(dated(at)) == before);
    }
    for metric in it: parsed
        invariant
            it.seq() == source,
            all == value_views(source),
            value_views(out@) == before + all.take(it.index() as int).filter(
                in_series(),
            ).map_values(dated(at)),
    {
        proof {
            reveal(Seq::filter);
            assert(all.take(it.index() + 1).drop_last() == all.take(it.index() as int));
            assert(all.take(it.index() + 1).last() == metric@);
        }
        if is_in_series(&metric) {
            let moved = Metric {
                name: metric.name,
                value: metric.value,
                unit: metric.unit,
                timestamp: Some(at),
                labels: metric.labels,
            };
            let ghost was = out@;
            out.push(moved);
            proof {
                let kept = all.take(it.index() as int).filter(in_series());
                assert(value_views(out@) == value_views(was).push(moved@));
                assert(before + kept.push(metric@).map_values(dated(at)) == (before
                    + kept.map_values(dated(at))).push(moved@));
            }
        }
    }
    assert(all.take(all.len() as int) == all);
}

fn add_all(out: &mut Vec<Metric>, parsed: Vec<Metric>)
    ensures
        value_views(final(out)@) == value_views(old(out)@) + value_views(parsed@),
{
    let ghost before = out@;
    let ghost more = parsed@;
    let mut rest = parsed;
    out.append(&mut rest);
    assert(value_views(out@) == value_views(before) + value_views(more));
}

/// Adds the metrics of one line.
fn add_line<F: Fn(Op) -> Number, R: Fn(&str) -> Option<Number>>(
    out: &mut Vec<Metric>,
    line: &Vec<char>,
    rules: &Result<RouteNormalizer, String>,
    compute: &F,
    read: &R,
) -> (r: Option<WindowError>)
    requires
        is_arithmetic(*compute),
        is_reader(*read),
    ensures
        match r {
            None => window_line(arithmetic(*compute), reading(*read), loaded(*rules), line@) matches Ok(
                more,
            ) && value_views(final(out)@) == value_views(old(out)@) + more,
            Some(error) => window_line(
                arithmetic(*compute),
                reading(*read),
                loaded(*rules),
                line@,
            ) == Err::<Seq<MetricView>, WindowFault>(error@),
        },
{
    if trimmed(line.as_slice()).len() == 0 || starts_with(
        line.as_slice(),
        chars_of("{").as_slice(),
    ) {
        assert(value_views(out@) == value_views(out@) + Seq::<MetricView>::empty());
        return None;
    }
    let (window, json) = match halves(line.as_slice(), chars_of("\t").as_slice()) {
        Some(parts) => parts,
        None => {
            return Some(WindowError::NoTab);
        },
    };
    let name = string_of(window.as_slice());
    let text = string_of(json.as_slice());
    let parsed = match parse_alp_json(text.as_str(), rules, compute, read) {
        Ok(parsed) => parsed,
        Err(error) => {
            return Some(WindowError::Statistics(name, error));
        },
    };
    if same(name.as_str(), "whole") {
        add_all(out, parsed);
        return None;
    }
    match read_window(window.as_slice(), compute, read) {
        Some(at) => {
            add_window(out, parsed, at);
            None
        },
        None => Some(WindowError::NotEpoch(name)),
    }
}

/// Reads statistics by window into metrics: each line holds the window, a tab and what alp printed
/// for it.
pub fn parse_alp_windows<F: Fn(Op) -> Number, R: Fn(&str) -> Option<Number>>(
    raw: &str,
    rules: &Result<RouteNormalizer, String>,
    compute: &F,
    read: &R,
) -> (r: Result<Vec<Metric>, WindowError>)
    requires
        is_arithmetic(*compute),
        is_reader(*read),
    ensures
        match r {
            Ok(metrics) => all_windows(
                arithmetic(*compute),
                reading(*read),
                loaded(*rules),
                lines(raw@),
            ) == Ok::<Seq<MetricView>, WindowFault>(value_views(metrics@)),
            Err(error) => all_windows(
                arithmetic(*compute),
                reading(*read),
                loaded(*rules),
                lines(raw@),
            ) == Err::<Seq<MetricView>, WindowFault>(error@),
        },
{
    let ghost f = arithmetic(*compute);
    let ghost number = reading(*read);
    let log = lines_of(chars_of(raw).as_slice());
    let ghost all = lines(raw@);
    let mut out: Vec<Metric> = Vec::new();
    let mut i: usize = 0;
    assert(all.take(0) == Seq::<Seq<char>>::empty());
    assert(value_views(out@) == Seq::<MetricView>::empty());
    while i < log.len()
        invariant
            is_arithmetic(*compute),
            is_reader(*read),
            f == arithmetic(*compute),
            number == reading(*read),
            i <= log@.len(),
            all == views(log@),
            all == lines(raw@),
            all_windows(f, number, loaded(*rules), all.take(i as int)) == Ok::<
                Seq<MetricView>,
                WindowFault,
            >(value_views(out@)),
        decreases log.len() - i,
    {
        proof {
            assert(all.take(i + 1).drop_last() == all.take(i as int));
            assert(all.take(i + 1).last() == log@[i as int]@);
        }
        match add_line(&mut out, &log[i], rules, compute, read) {
            Some(error) => {
                proof {
                    first_fault_stays(f, number, loaded(*rules), all, i + 1);
                }
                return Err(error);
            },
            None => {},
        }
        i += 1;
    }
    assert(all.take(i as int) == all);
    Ok(out)
}

/// The statistics of a window other than the whole log give a series of counts, errors and
/// quantiles at the start of the window, and nothing else.
pub proof fn windows_give_series(
    f: spec_fn(Op) -> Number,
    number: spec_fn(Seq<char>) -> Option<Number>,
    window: Seq<char>,
    metrics: Seq<MetricView>,
    i: int,
)
    requires
        window != "whole"@,
        window_metrics(f, number, window, Ok(metrics)) is Ok,
        0 <= i < window_metrics(f, number, window, Ok(metrics))->Ok_0.len(),
    ensures
        ({
            let m = window_metrics(f, number, window, Ok(metrics))->Ok_0[i];
            &&& m.timestamp == window_start(f, number, window)
            &&& m.name == "http.requests"@ || m.name == "http.errors"@ || m.name
                == "http.request_duration"@
            &&& m.name == "http.requests"@ ==> lookup(m.labels, "status_class"@) is None
        }),
{
    metrics.lemma_filter_pred(in_series(), i);
}

} // verus!
