//! What a benchmark prints while it runs, and what comes of it.
use crate::bytes::{
    append_bytes, bytes_between, find_bytes, find_bytes_bounds, find_in_bytes, finds_stay,
};
use crate::config::{BenchmarkConfig, BenchmarkMode};
use crate::join::{chain, value_views};
use crate::json::{item_views, json_of_text, parse_text, str_option, Json, JsonView};
use crate::labels::{with_label, Labels};
use crate::model::{BenchmarkResult, LogRef, Metric, MetricView};
use crate::moment::Moment;
use crate::number::{arithmetic, is_arithmetic, Number, Op};
use crate::pattern::{captures, group, group_of, is_pattern, matched_groups, valid_pattern};
use crate::protocol::{json_lines, parse_protocol, pick_metric, picked};
use crate::report::text_option;
use crate::sql_shape::ascii_lower;
use crate::text::{
    chars_of, contains_text, decimal, decimal_of, glue2, glue3, is_blank, lossy_text, parsed_signed,
    same_chars, signed_number, string_of, text_from_bytes, text_from_lossy, texts, trim, trimmed,
};
use crate::transition::has_text;
use vstd::prelude::*;

verus! {

/// A benchmark that has run, with its logs and the metrics that it printed.
#[derive(Debug)]
pub struct BenchmarkExecution {
    pub result: BenchmarkResult,
    pub logs: Vec<LogRef>,
    pub metrics: Vec<Metric>,
}

/// What the lines of a running benchmark have told so far.
#[derive(Debug)]
pub struct Observation {
    pub score: Option<i64>,
    pub passed: Option<bool>,
    pub messages: Vec<String>,
    pub initialize_started_at: Option<Moment>,
    pub initialize_finished_at: Option<Moment>,
    pub protocol_result_count: usize,
    pub operator_lines_dropped: usize,
}

#[verifier::ext_equal]
pub struct ObservationView {
    pub score: Option<i64>,
    pub passed: Option<bool>,
    pub messages: Seq<Seq<char>>,
    pub initialize_started_at: Option<Moment>,
    pub initialize_finished_at: Option<Moment>,
    pub protocol_result_count: nat,
    pub operator_lines_dropped: nat,
}

impl View for Observation {
    type V = ObservationView;

    open spec fn view(&self) -> ObservationView {
        ObservationView {
            score: self.score,
            passed: self.passed,
            messages: texts(self.messages@),
            initialize_started_at: self.initialize_started_at,
            initialize_finished_at: self.initialize_finished_at,
            protocol_result_count: self.protocol_result_count as nat,
            operator_lines_dropped: self.operator_lines_dropped as nat,
        }
    }
}

/// Nothing has been told yet.
pub open spec fn nothing_observed() -> ObservationView {
    ObservationView {
        score: None,
        passed: None,
        messages: Seq::empty(),
        initialize_started_at: None,
        initialize_finished_at: None,
        protocol_result_count: 0,
        operator_lines_dropped: 0,
    }
}

impl Default for Observation {
    fn default() -> (r: Observation)
        ensures
            r@ == nothing_observed(),
    {
        let r = Observation {
            score: None,
            passed: None,
            messages: Vec::new(),
            initialize_started_at: None,
            initialize_finished_at: None,
            protocol_result_count: 0,
            operator_lines_dropped: 0,
        };
        assert(r@.messages == Seq::<Seq<char>>::empty());
        r
    }
}

/// The initialization has begun, if it had not before.
pub open spec fn begun(o: ObservationView, now: Moment) -> ObservationView {
    if o.initialize_started_at is None {
        ObservationView { initialize_started_at: Some(now), ..o }
    } else {
        o
    }
}

/// The initialization has ended, if it had begun and not ended before.
pub open spec fn ended(o: ObservationView, now: Moment) -> ObservationView {
    if o.initialize_started_at is Some && o.initialize_finished_at is None {
        ObservationView { initialize_finished_at: Some(now), ..o }
    } else {
        o
    }
}

/// The first group of the score pattern, where it is an integer.
pub open spec fn printed_score(pattern: Seq<char>, line: Seq<char>) -> Option<int> {
    match matched_groups(pattern, line) {
        Some(groups) => match group_of(groups, 1) {
            Some(text) => parsed_signed(text),
            None => None,
        },
        None => None,
    }
}

/// What a line tells by its words: the marks of the initialization, and the score.
pub open spec fn after_words(
    config: BenchmarkConfig,
    line: Seq<char>,
    now: Moment,
    o: ObservationView,
) -> ObservationView {
    let a = if contains_text(line, config.initialize_start_marker@) {
        begun(o, now)
    } else {
        o
    };
    let b = if contains_text(line, config.initialize_finish_marker@) {
        ended(a, now)
    } else {
        a
    };
    match printed_score(config.score_pattern@, line) {
        Some(score) => ObservationView { score: Some(score as i64), ..b },
        None => b,
    }
}

pub open spec fn text_of() -> spec_fn(JsonView) -> Option<Seq<char>> {
    |v: JsonView| v.text()
}

/// The texts among the items of a list.
pub open spec fn message_list(value: Option<JsonView>) -> Seq<Seq<char>> {
    match value {
        Some(JsonView::List(items)) => picked(items, text_of()),
        _ => Seq::empty(),
    }
}

/// What an event tells.
pub open spec fn after_event(value: JsonView, now: Moment, o: ObservationView) -> ObservationView {
    if value.member_text("name"@) == Some("initialize-started"@) {
        begun(o, now)
    } else if value.member_text("name"@) == Some("initialize-finished"@) {
        ended(o, now)
    } else {
        o
    }
}

/// What a result tells. A later result wins over an earlier one, and their messages add up.
pub open spec fn after_result(value: JsonView, o: ObservationView) -> ObservationView {
    ObservationView {
        score: match value.member_integer("score"@) {
            Some(score) => Some(score),
            None => o.score,
        },
        passed: match value.member_flag("pass"@) {
            Some(passed) => Some(passed),
            None => o.passed,
        },
        messages: o.messages + message_list(value.member("messages"@)),
        protocol_result_count: o.protocol_result_count + 1,
        ..o
    }
}

/// What a structured line tells. Only lines that name their type count.
pub open spec fn after_value(value: JsonView, now: Moment, o: ObservationView) -> ObservationView {
    if value.member_text("type"@) == Some("isuscope.event"@) {
        after_event(value, now, o)
    } else if value.member_text("type"@) == Some("isuscope.result"@) {
        after_result(value, o)
    } else {
        o
    }
}

/// What a line tells. The words are read on both streams, structured lines on the standard output
/// alone.
pub open spec fn observed(
    config: BenchmarkConfig,
    stderr: bool,
    line: Seq<char>,
    now: Moment,
    o: ObservationView,
) -> ObservationView {
    let after = after_words(config, line, now, o);
    match json_of_text(line) {
        Some(value) => if stderr {
            after
        } else {
            after_value(value, now, after)
        },
        None => after,
    }
}

fn begin(o: &mut Observation, now: Moment)
    ensures
        final(o)@ == begun(old(o)@, now),
{
    if o.initialize_started_at.is_none() {
        o.initialize_started_at = Some(now);
    }
}

fn end(o: &mut Observation, now: Moment)
    ensures
        final(o)@ == ended(old(o)@, now),
{
    if o.initialize_started_at.is_some() && o.initialize_finished_at.is_none() {
        o.initialize_finished_at = Some(now);
    }
}

fn score_in(pattern: &str, line: &str) -> (r: Option<i64>)
    ensures
        match r {
            Some(score) => printed_score(pattern@, line@) == Some(score as int),
            None => printed_score(pattern@, line@) is None,
        },
{
    match captures(pattern, line) {
        Some(groups) => match group(&groups, 1) {
            Some(text) => signed_number(chars_of(text.as_str()).as_slice()),
            None => None,
        },
        None => None,
    }
}

fn read_words(o: &mut Observation, line: &str, config: &BenchmarkConfig, now: Moment)
    ensures
        final(o)@ == after_words(*config, line@, now, old(o)@),
{
    if has_text(line, config.initialize_start_marker.as_str()) {
        begin(o, now);
    }
    if has_text(line, config.initialize_finish_marker.as_str()) {
        end(o, now);
    }
    match score_in(config.score_pattern.as_str(), line) {
        Some(score) => {
            o.score = Some(score);
        },
        None => {},
    }
}

fn add_messages(messages: &mut Vec<String>, value: Option<&Json>)
    ensures
        texts(final(messages)@) == texts(old(messages)@) + message_list(
            match value {
                Some(v) => Some(v@),
                None => None,
            },
        ),
{
    let ghost start = texts(messages@);
    let found = match value {
        Some(v) => v,
        None => {
            assert(start + Seq::<Seq<char>>::empty() == start);
            return;
        },
    };
    proof {
        found.parts();
    }
    let items = match found {
        Json::List(items) => items,
        _ => {
            assert(start + Seq::<Seq<char>>::empty() == start);
            return;
        },
    };
    let ghost all = item_views(items@);
    let mut i: usize = 0;
    assert(all.take(0) == Seq::<JsonView>::empty());
    assert(start + picked(all.take(0), text_of()) == start);
    while i < items.len()
        invariant
            i <= items@.len(),
            all == item_views(items@),
            texts(messages@) == start + picked(all.take(i as int), text_of()),
        decreases items.len() - i,
    {
        let ghost was = messages@;
        let ghost head = picked(all.take(i as int), text_of());
        assert(all.take(i + 1).drop_last() == all.take(i as int));
        assert(all.take(i + 1).last() == items@[i as int]@);
        match items[i].as_str() {
            Some(text) => {
                messages.push(text.to_owned());
                assert(texts(messages@) == texts(was).push(text@));
                assert(start + head.push(text@) == (start + head).push(text@));
            },
            None => {},
        }
        i += 1;
    }
    assert(all.take(i as int) == all);
}

fn read_result(o: &mut Observation, value: &Json)
    requires
        old(o).protocol_result_count < usize::MAX,
    ensures
        final(o)@ == after_result(value@, old(o)@),
{
    o.protocol_result_count = o.protocol_result_count + 1;
    match value.get_integer("score") {
        Some(score) => {
            o.score = Some(score);
        },
        None => {},
    }
    match value.get_flag("pass") {
        Some(passed) => {
            o.passed = Some(passed);
        },
        None => {},
    }
    let mut messages: Vec<String> = Vec::new();
    std::mem::swap(&mut messages, &mut o.messages);
    add_messages(&mut messages, value.get("messages"));
    o.messages = messages;
}

fn text_is(found: Option<&str>, text: &str) -> (r: bool)
    ensures
        r == (str_option(found) == Some(text@)),
{
    match found {
        Some(s) => crate::text::same(s, text),
        None => false,
    }
}

fn read_value(o: &mut Observation, value: &Json, now: Moment)
    requires
        old(o).protocol_result_count < usize::MAX,
    ensures
        final(o)@ == after_value(value@, now, old(o)@),
{
    proof {
        reveal_strlit("isuscope.event");
        reveal_strlit("isuscope.result");
        assert("isuscope.event"@.len() != "isuscope.result"@.len());
        reveal_strlit("initialize-started");
        reveal_strlit("initialize-finished");
        assert("initialize-started"@.len() != "initialize-finished"@.len());
    }
    if text_is(value.get_str("type"), "isuscope.event") {
        if text_is(value.get_str("name"), "initialize-started") {
            begin(o, now);
        } else if text_is(value.get_str("name"), "initialize-finished") {
            end(o, now);
        }
    } else if text_is(value.get_str("type"), "isuscope.result") {
        read_result(o, value);
    }
}

/// Reads one line of a running benchmark.
pub fn observe_line(
    o: &mut Observation,
    line: &str,
    stderr: bool,
    config: &BenchmarkConfig,
    now: Moment,
)
    requires
        old(o).protocol_result_count < usize::MAX,
    ensures
        final(o)@ == observed(*config, stderr, line@, now, old(o)@),
{
    let ghost count = o.protocol_result_count;
    read_words(o, line, config, now);
    assert(o@.protocol_result_count == count);
    if !stderr {
        match parse_text(line) {
            Some(value) => {
                read_value(o, &value, now);
            },
            None => {},
        }
    }
}

/// A line that is for the organizers alone.
pub open spec fn is_operator_line(config: BenchmarkConfig, line: Seq<u8>) -> bool {
    match config.operator_line_pattern {
        Some(pattern) => matched_groups(pattern@, lossy_text(line)) is Some,
        None => false,
    }
}

/// What is known after a line of bytes. A line for the organizers is only counted, and a line that
/// is not text tells nothing.
pub open spec fn captured(
    config: BenchmarkConfig,
    stderr: bool,
    line: Seq<u8>,
    now: Moment,
    o: ObservationView,
) -> ObservationView {
    if is_operator_line(config, line) {
        ObservationView { operator_lines_dropped: o.operator_lines_dropped + 1, ..o }
    } else if vstd::utf8::valid_utf8(line) {
        observed(config, stderr, vstd::utf8::decode_utf8(line), now, o)
    } else {
        o
    }
}

/// Takes one line of a running benchmark, and tells whether it is to be saved and shown.
pub fn capture_line(
    o: &mut Observation,
    line: &[u8],
    stderr: bool,
    config: &BenchmarkConfig,
    now: Moment,
) -> (saved: bool)
    requires
        old(o).protocol_result_count < usize::MAX,
        old(o).operator_lines_dropped < usize::MAX,
    ensures
        saved == !is_operator_line(*config, line@),
        final(o)@ == captured(*config, stderr, line@, now, old(o)@),
{
    if operator_line(config, line) {
        o.operator_lines_dropped = o.operator_lines_dropped + 1;
        return false;
    }
    match text_from_bytes(line) {
        Some(text) => {
            observe_line(o, text.as_str(), stderr, config, now);
        },
        None => {},
    }
    true
}

/// A line of a benchmark: its bytes, its stream and when it came.
#[verifier::ext_equal]
pub struct ComingLine {
    pub bytes: Seq<u8>,
    pub stderr: bool,
    pub at: Moment,
}

/// A line that a benchmark has printed.
#[derive(Debug)]
pub struct OutputLine {
    pub bytes: Vec<u8>,
    pub stderr: bool,
    pub at: Moment,
}

impl View for OutputLine {
    type V = ComingLine;

    open spec fn view(&self) -> ComingLine {
        ComingLine { bytes: self.bytes@, stderr: self.stderr, at: self.at }
    }
}

/// What is saved of some lines: those that are not for the organizers, each with its end.
pub open spec fn saved_output(config: BenchmarkConfig, lines: Seq<ComingLine>) -> Seq<u8>
    decreases lines.len(),
{
    if lines.len() == 0 {
        Seq::empty()
    } else {
        let before = saved_output(config, lines.drop_last());
        if is_operator_line(config, lines.last().bytes) {
            before
        } else {
            before + lines.last().bytes.push(10)
        }
    }
}

/// What is known after some lines.
pub open spec fn captured_all(
    config: BenchmarkConfig,
    o: ObservationView,
    lines: Seq<ComingLine>,
) -> ObservationView
    decreases lines.len(),
{
    if lines.len() == 0 {
        o
    } else {
        let l = lines.last();
        captured(config, l.stderr, l.bytes, l.at, captured_all(config, o, lines.drop_last()))
    }
}

pub open spec fn for_players(config: BenchmarkConfig) -> spec_fn(ComingLine) -> bool {
    |l: ComingLine| !is_operator_line(config, l.bytes)
}

/// What is known, but for the number of lines that were dropped.
pub open spec fn without_drops(o: ObservationView) -> ObservationView {
    ObservationView { operator_lines_dropped: 0, ..o }
}

/// Lines for the organizers leave nothing but their number: without them the same would be known,
/// and the same saved.
pub proof fn operator_lines_leave_no_trace(
    config: BenchmarkConfig,
    o: ObservationView,
    lines: Seq<ComingLine>,
)
    ensures
        without_drops(captured_all(config, o, lines)) == without_drops(
            captured_all(config, o, lines.filter(for_players(config))),
        ),
        captured_all(config, o, lines).operator_lines_dropped == o.operator_lines_dropped
            + lines.len() - lines.filter(for_players(config)).len(),
        saved_output(config, lines) == saved_output(config, lines.filter(for_players(config))),
    decreases lines.len(),
{
    reveal(Seq::filter);
    if lines.len() > 0 {
        operator_lines_leave_no_trace(config, o, lines.drop_last());
        let head = lines.drop_last().filter(for_players(config));
        let all = lines.filter(for_players(config));
        let l = lines.last();
        operator_lines_only_count(config, o, head);
        if for_players(config)(l) {
            assert(all == head.push(l));
            assert(all.drop_last() == head);
            let a = captured_all(config, o, lines.drop_last());
            let b = captured_all(config, o, head);
            drops_do_not_matter(config, l, a, b);
        }
    }
}

/// What a line tells does not depend on how many lines were dropped before it.
proof fn drops_do_not_matter(
    config: BenchmarkConfig,
    l: ComingLine,
    a: ObservationView,
    b: ObservationView,
)
    requires
        without_drops(a) == without_drops(b),
        !is_operator_line(config, l.bytes),
    ensures
        without_drops(captured(config, l.stderr, l.bytes, l.at, a)) == without_drops(
            captured(config, l.stderr, l.bytes, l.at, b),
        ),
        captured(config, l.stderr, l.bytes, l.at, a).operator_lines_dropped
            == a.operator_lines_dropped,
{
    assert(without_drops(a).score == a.score && without_drops(b).score == b.score);
    assert(without_drops(a).passed == a.passed && without_drops(b).passed == b.passed);
    assert(without_drops(a).messages == a.messages && without_drops(b).messages == b.messages);
    assert(without_drops(a).initialize_started_at == a.initialize_started_at);
    assert(without_drops(b).initialize_started_at == b.initialize_started_at);
    assert(without_drops(a).initialize_finished_at == a.initialize_finished_at);
    assert(without_drops(b).initialize_finished_at == b.initialize_finished_at);
    assert(without_drops(a).protocol_result_count == a.protocol_result_count);
    assert(without_drops(b).protocol_result_count == b.protocol_result_count);
}

proof fn operator_lines_only_count(
    config: BenchmarkConfig,
    o: ObservationView,
    lines: Seq<ComingLine>,
)
    ensures
        captured_all(config, o, lines).operator_lines_dropped >= o.operator_lines_dropped,
    decreases lines.len(),
{
    if lines.len() > 0 {
        operator_lines_only_count(config, o, lines.drop_last());
    }
}

/// Of lines that are all for the players, all are saved.
pub proof fn lines_for_players_are_saved(config: BenchmarkConfig, lines: Seq<ComingLine>)
    requires
        forall|i: int|
            0 <= i < lines.len() ==> !is_operator_line(config, (#[trigger] lines[i]).bytes),
    ensures
        saved_output(config, lines) == chain(lines.map_values(|l: ComingLine| l.bytes.push(10))),
    decreases lines.len(),
{
    let ended = |l: ComingLine| l.bytes.push(10);
    if lines.len() == 0 {
        assert(lines.map_values(ended) == Seq::<Seq<u8>>::empty());
    } else {
        let head = lines.drop_last();
        assert forall|i: int| 0 <= i < head.len() implies !is_operator_line(
            config,
            (#[trigger] head[i]).bytes,
        ) by {
            assert(head[i] == lines[i]);
        }
        lines_for_players_are_saved(config, head);
        assert(lines.map_values(ended).drop_last() == head.map_values(ended));
        assert(lines[lines.len() - 1] == lines.last());
    }
}

/// Takes some lines of a running benchmark, and gives what is to be saved and shown of them.
pub fn capture_lines(o: &mut Observation, lines: &Vec<OutputLine>, config: &BenchmarkConfig) -> (saved:
    Vec<u8>)
    requires
        old(o).protocol_result_count + lines@.len() <= usize::MAX,
        old(o).operator_lines_dropped + lines@.len() <= usize::MAX,
    ensures
        saved@ == saved_output(*config, value_views(lines@)),
        final(o)@ == captured_all(*config, old(o)@, value_views(lines@)),
{
    let ghost all = value_views(lines@);
    let ghost start = o@;
    let mut saved: Vec<u8> = Vec::new();
    let mut i: usize = 0;
    assert(all.take(0) == Seq::<ComingLine>::empty());
    while i < lines.len()
        invariant
            i <= lines@.len(),
            all == value_views(lines@),
            saved@ == saved_output(*config, all.take(i as int)),
            o@ == captured_all(*config, start, all.take(i as int)),
            o.protocol_result_count <= start.protocol_result_count + i,
            o.operator_lines_dropped <= start.operator_lines_dropped + i,
            start.protocol_result_count + lines@.len() <= usize::MAX,
            start.operator_lines_dropped + lines@.len() <= usize::MAX,
        decreases lines.len() - i,
    {
        let line = &lines[i];
        let ghost before = o@;
        proof {
            assert(all.take(i + 1).drop_last() == all.take(i as int));
            assert(all.take(i + 1).last() == line@);
            lines_are_counted_once(*config, line.stderr, line.bytes@, line.at, before);
        }
        if capture_line(o, line.bytes.as_slice(), line.stderr, config, line.at) {
            let ghost was = saved@;
            append_bytes(&mut saved, line.bytes.as_slice());
            saved.push(10);
            assert(saved@ == was + line.bytes@.push(10));
        }
        i += 1;
    }
    assert(all.take(i as int) == all);
    saved
}

/// A line adds one at most to each count.
proof fn lines_are_counted_once(
    config: BenchmarkConfig,
    stderr: bool,
    line: Seq<u8>,
    now: Moment,
    o: ObservationView,
)
    ensures
        captured(config, stderr, line, now, o).protocol_result_count <= o.protocol_result_count + 1,
        captured(config, stderr, line, now, o).operator_lines_dropped <= o.operator_lines_dropped
            + 1,
{
}

/// What may be kept of an output that was saved: its lines but for those for the organizers. A
/// last line without an end is one too.
pub open spec fn kept_output(config: BenchmarkConfig, output: Seq<u8>) -> Seq<u8>
    decreases output.len(),
    via kept_output_shrinks
{
    match find_bytes(output, seq![10u8]) {
        Some(end) => {
            let rest = kept_output(config, output.skip(end + 1));
            if is_operator_line(config, output.take(end)) {
                rest
            } else {
                output.take(end + 1) + rest
            }
        },
        None => if is_operator_line(config, output) {
            Seq::empty()
        } else {
            output
        },
    }
}

#[via_fn]
proof fn kept_output_shrinks(config: BenchmarkConfig, output: Seq<u8>) {
    find_bytes_bounds(output, seq![10u8], 0);
}

fn operator_line(config: &BenchmarkConfig, line: &[u8]) -> (r: bool)
    ensures
        r == is_operator_line(*config, line@),
{
    match &config.operator_line_pattern {
        Some(pattern) => {
            let text = text_from_lossy(line);
            captures(pattern.as_str(), text.as_str()).is_some()
        },
        None => false,
    }
}

/// Drops the lines for the organizers from an output that was saved.
pub fn kept_lines(output: &[u8], config: &BenchmarkConfig) -> (r: Vec<u8>)
    ensures
        r@ == kept_output(*config, output@),
{
    let mark: Vec<u8> = vec![10];
    assert(mark@ == seq![10u8]);
    let mut kept: Vec<u8> = Vec::new();
    let mut at: usize = 0;
    let length: usize = output.len();
    assert(output@.skip(0) == output@);
    loop
        invariant
            at <= length == output@.len(),
            mark@ == seq![10u8],
            kept_output(*config, output@) == kept@ + kept_output(*config, output@.skip(at as int)),
        decreases length - at,
    {
        let rest = bytes_between(output, at, length);
        assert(rest@ == output@.skip(at as int));
        let ghost was = kept@;
        match find_in_bytes(rest.as_slice(), mark.as_slice()) {
            Some(end) => {
                let line = bytes_between(rest.as_slice(), 0, end);
                assert(line@ == rest@.take(end as int));
                assert(rest@.skip(end + 1) == output@.skip(at + end + 1));
                if !operator_line(config, line.as_slice()) {
                    let ended = bytes_between(rest.as_slice(), 0, end + 1);
                    assert(ended@ == rest@.take(end + 1));
                    append_bytes(&mut kept, ended.as_slice());
                    assert(was + (ended@ + kept_output(*config, output@.skip(at + end + 1)))
                        == kept@ + kept_output(*config, output@.skip(at + end + 1)));
                }
                at = at + end + 1;
            },
            None => {
                if !operator_line(config, rest.as_slice()) {
                    append_bytes(&mut kept, rest.as_slice());
                } else {
                    assert(kept@ + Seq::<u8>::empty() == kept@);
                }
                return kept;
            },
        }
    }
}

/// What was kept holds no line for the organizers: nothing more is dropped from it.
pub proof fn kept_lines_stay(config: BenchmarkConfig, output: Seq<u8>)
    ensures
        kept_output(config, kept_output(config, output)) == kept_output(config, output),
    decreases output.len(),
{
    let mark = seq![10u8];
    find_bytes_bounds(output, mark, 0);
    match find_bytes(output, mark) {
        Some(end) => {
            kept_lines_stay(config, output.skip(end + 1));
            let rest = kept_output(config, output.skip(end + 1));
            if !is_operator_line(config, output.take(end)) {
                let kept = output.take(end + 1) + rest;
                assert(mark.len() == 1);
                finds_stay(output, kept, mark, 0);
                assert(kept.take(end) == output.take(end));
                assert(kept.take(end + 1) == output.take(end + 1));
                assert(kept.skip(end + 1) == rest);
            }
        },
        None => {
            if is_operator_line(config, output) {
                find_bytes_bounds(Seq::<u8>::empty(), mark, 0);
            }
        },
    }
}

/// The initialization ends only after it has begun, and neither moment moves once it is known.
pub proof fn initialization_is_settled_once(
    config: BenchmarkConfig,
    stderr: bool,
    line: Seq<u8>,
    now: Moment,
    o: ObservationView,
)
    requires
        o.initialize_finished_at is Some ==> o.initialize_started_at is Some,
    ensures
        ({
            let after = captured(config, stderr, line, now, o);
            &&& after.initialize_finished_at is Some ==> after.initialize_started_at is Some
            &&& o.initialize_started_at is Some ==> after.initialize_started_at
                == o.initialize_started_at
            &&& o.initialize_finished_at is Some ==> after.initialize_finished_at
                == o.initialize_finished_at
        }),
{
}

/// What a benchmark came to, without regard to how its texts are held.
#[verifier::ext_equal]
pub struct BenchmarkView {
    pub mode: Seq<char>,
    pub command: Seq<Seq<char>>,
    pub exit_code: Option<i32>,
    pub score: Option<i64>,
    pub passed: Option<bool>,
    pub interrupted: bool,
    pub messages: Seq<Seq<char>>,
    pub started_at: Option<Moment>,
    pub finished_at: Option<Moment>,
    pub initialize_started_at: Option<Moment>,
    pub initialize_finished_at: Option<Moment>,
    pub error: Option<Seq<char>>,
    pub operator_lines_dropped: nat,
}

impl View for BenchmarkResult {
    type V = BenchmarkView;

    open spec fn view(&self) -> BenchmarkView {
        BenchmarkView {
            mode: self.mode@,
            command: texts(self.command@),
            exit_code: self.exit_code,
            score: self.score,
            passed: self.passed,
            interrupted: self.interrupted,
            messages: texts(self.messages@),
            started_at: self.started_at,
            finished_at: self.finished_at,
            initialize_started_at: self.initialize_started_at,
            initialize_finished_at: self.initialize_finished_at,
            error: text_option(self.error),
            operator_lines_dropped: self.operator_lines_dropped as nat,
        }
    }
}

/// A result of which only the mode is known.
pub open spec fn blank_result(mode: Seq<char>) -> BenchmarkView {
    BenchmarkView {
        mode,
        command: Seq::empty(),
        exit_code: None,
        score: None,
        passed: None,
        interrupted: false,
        messages: Seq::empty(),
        started_at: None,
        finished_at: None,
        initialize_started_at: None,
        initialize_finished_at: None,
        error: None,
        operator_lines_dropped: 0,
    }
}

fn blank(mode: &str) -> (r: BenchmarkResult)
    ensures
        r@ == blank_result(mode@),
{
    let r = BenchmarkResult {
        mode: mode.to_owned(),
        command: Vec::new(),
        exit_code: None,
        score: None,
        passed: None,
        interrupted: false,
        messages: Vec::new(),
        started_at: None,
        finished_at: None,
        initialize_started_at: None,
        initialize_finished_at: None,
        error: None,
        operator_lines_dropped: 0,
    };
    assert(r@.command == Seq::<Seq<char>>::empty());
    assert(r@.messages == Seq::<Seq<char>>::empty());
    r
}

/// Why a benchmark command cannot be started.
#[derive(Clone, Copy, Debug, PartialEq, Eq, Structural)]
pub enum StartError {
    NoCommand,
    ScorePattern,
}

impl StartError {
    pub open spec fn text(self) -> Seq<char> {
        match self {
            StartError::NoCommand => "benchmark.command must not be empty in command mode"@,
            StartError::ScorePattern =>
                "benchmark.score_pattern is not a valid regular expression"@,
        }
    }

    pub fn message(self) -> (r: String)
        ensures
            r@ == self.text(),
    {
        match self {
            StartError::NoCommand =>
                "benchmark.command must not be empty in command mode".to_owned(),
            StartError::ScorePattern =>
                "benchmark.score_pattern is not a valid regular expression".to_owned(),
        }
    }
}

/// What stands in the way of a benchmark command.
pub open spec fn start_error(config: BenchmarkConfig) -> Option<StartError> {
    if config.command@.len() == 0 {
        Some(StartError::NoCommand)
    } else if !is_pattern(config.score_pattern@) {
        Some(StartError::ScorePattern)
    } else {
        None
    }
}

/// Checks the command and the pattern before the command is started.
pub fn check_start(config: &BenchmarkConfig) -> (r: Result<(), StartError>)
    ensures
        match r {
            Ok(_) => start_error(*config) is None,
            Err(error) => start_error(*config) == Some(error),
        },
{
    if config.command.len() == 0 {
        return Err(StartError::NoCommand);
    }
    if !valid_pattern(config.score_pattern.as_str()) {
        return Err(StartError::ScorePattern);
    }
    Ok(())
}

/// How a process ended.
#[derive(Clone, Debug)]
pub struct ExitStatus {
    pub success: bool,
    pub code: Option<i32>,
    /// The status in words.
    pub text: String,
}

/// The benchmark passed if it says so, or else if it ended well with a score. An interruption, a
/// bad end and a second result stand against it.
pub open spec fn verdict(o: ObservationView, success: bool, interrupted: bool) -> bool {
    if interrupted || !success || o.protocol_result_count > 1 {
        false
    } else {
        match o.passed {
            Some(passed) => passed,
            None => o.score is Some,
        }
    }
}

/// What is wrong with a benchmark that ended.
pub open spec fn end_error(
    o: ObservationView,
    status: ExitStatus,
    interrupted: bool,
) -> Option<Seq<char>> {
    if interrupted {
        Some("interrupted by signal"@)
    } else if o.protocol_result_count > 1 {
        Some(
            "benchmark emitted "@ + decimal(o.protocol_result_count)
                + " isuscope.result records; expected exactly one"@,
        )
    } else if !status.success {
        Some("benchmark command exited with "@ + status.text@)
    } else {
        None
    }
}

/// What a benchmark command came to.
pub open spec fn command_result(
    command: Seq<Seq<char>>,
    o: ObservationView,
    status: ExitStatus,
    interrupted: bool,
) -> BenchmarkView {
    BenchmarkView {
        mode: "command"@,
        command,
        exit_code: status.code,
        score: o.score,
        passed: Some(verdict(o, status.success, interrupted)),
        interrupted,
        messages: o.messages,
        started_at: None,
        finished_at: None,
        initialize_started_at: o.initialize_started_at,
        initialize_finished_at: o.initialize_finished_at,
        error: end_error(o, status, interrupted),
        operator_lines_dropped: o.operator_lines_dropped,
    }
}

fn error_of(o: &Observation, status: &ExitStatus, interrupted: bool) -> (r: Option<String>)
    ensures
        text_option(r) == end_error(o@, *status, interrupted),
{
    if interrupted {
        Some("interrupted by signal".to_owned())
    } else if o.protocol_result_count > 1 {
        let count = string_of(decimal_of(o.protocol_result_count as u64).as_slice());
        Some(
            glue3(
                "benchmark emitted ",
                count.as_str(),
                " isuscope.result records; expected exactly one",
            ),
        )
    } else if !status.success {
        Some(glue2("benchmark command exited with ", status.text.as_str()))
    } else {
        None
    }
}

/// A copy of some texts.
pub fn copied(items: &Vec<String>) -> (r: Vec<String>)
    ensures
        texts(r@) == texts(items@),
{
    let mut out: Vec<String> = Vec::new();
    let mut i: usize = 0;
    assert(texts(out@) == texts(items@).take(0));
    while i < items.len()
        invariant
            i <= items@.len(),
            texts(out@) == texts(items@).take(i as int),
        decreases items.len() - i,
    {
        let ghost was = out@;
        out.push(items[i].clone());
        assert(texts(out@) == texts(was).push(items@[i as int]@));
        assert(texts(items@).take(i + 1) == texts(items@).take(i as int).push(
            items@[i as int]@,
        ));
        i += 1;
    }
    assert(texts(items@).take(i as int) == texts(items@));
    out
}

/// Says what a benchmark command came to.
pub fn conclude(
    command: &Vec<String>,
    o: Observation,
    status: &ExitStatus,
    interrupted: bool,
) -> (r: BenchmarkResult)
    ensures
        r@ == command_result(texts(command@), o@, *status, interrupted),
{
    let error = error_of(&o, status, interrupted);
    let passed = if interrupted || !status.success || o.protocol_result_count > 1 {
        false
    } else {
        match o.passed {
            Some(passed) => passed,
            None => o.score.is_some(),
        }
    };
    BenchmarkResult {
        mode: "command".to_owned(),
        command: copied(command),
        exit_code: status.code,
        score: o.score,
        passed: Some(passed),
        interrupted,
        messages: o.messages,
        started_at: None,
        finished_at: None,
        initialize_started_at: o.initialize_started_at,
        initialize_finished_at: o.initialize_finished_at,
        error,
        operator_lines_dropped: o.operator_lines_dropped,
    }
}

/// A benchmark passes only without trouble: a result with an error has not passed, and an
/// interrupted one neither.
pub proof fn trouble_never_passes(
    command: Seq<Seq<char>>,
    o: ObservationView,
    status: ExitStatus,
    interrupted: bool,
)
    ensures
        ({
            let result = command_result(command, o, status, interrupted);
            &&& result.error is Some ==> result.passed == Some(false)
            &&& result.passed == Some(true) ==> status.success && !interrupted
                && o.protocol_result_count <= 1
            &&& result.passed == Some(true) && o.passed is None ==> result.score is Some
        }),
{
}

/// The logs of a benchmark command.
pub fn benchmark_logs() -> (r: Vec<LogRef>)
    ensures
        r@.len() == 2,
        r@[0].id@ == "benchmark-stdout"@,
        r@[0].kind@ == "benchmark-stdout"@,
        r@[0].node is None,
        r@[1].id@ == "benchmark-stderr"@,
        r@[1].kind@ == "benchmark-stderr"@,
        r@[1].node is None,
{
    let mut logs: Vec<LogRef> = Vec::new();
    logs.push(
        LogRef {
            id: "benchmark-stdout".to_owned(),
            kind: "benchmark-stdout".to_owned(),
            node: None,
        },
    );
    logs.push(
        LogRef {
            id: "benchmark-stderr".to_owned(),
            kind: "benchmark-stderr".to_owned(),
            node: None,
        },
    );
    logs
}

/// A metric with one more label.
pub open spec fn labelled(name: Seq<char>, value: Seq<char>) -> spec_fn(MetricView) -> MetricView {
    |m: MetricView| MetricView { labels: with_label(m.labels, name, value), ..m }
}

/// Gives all metrics a label.
pub fn label_metrics(metrics: Vec<Metric>, name: &str, value: &str) -> (r: Vec<Metric>)
    ensures
        value_views(r@) == value_views(metrics@).map_values(labelled(name@, value@)),
{
    let ghost all = value_views(metrics@);
    let ghost f = labelled(name@, value@);
    let mut out: Vec<Metric> = Vec::new();
    assert(value_views(out@) == all.map_values(f).take(0));
    for metric in it: metrics
        invariant
            all == value_views(it.seq()),
            f == labelled(name@, value@),
            value_views(out@) == all.map_values(f).take(it.index() as int),
    {
        let ghost was = out@;
        let ghost before = metric@;
        assert(before == all[it.index() as int]);
        let mut changed = metric;
        let mut labels: Labels = changed.labels.clone();
        labels.insert(name.to_owned(), value.to_owned());
        changed.labels = labels;
        assert(changed@ == f(before));
        out.push(changed);
        assert(value_views(out@) == value_views(was).push(changed@));
        assert(all.map_values(f).take(it.index() + 1) == all.map_values(f).take(
            it.index() as int,
        ).push(f(before)));
    }
    assert(all.map_values(f).take(all.len() as int) == all.map_values(f));
    out
}

/// The metrics that a benchmark printed itself.
pub open spec fn inline_metrics(f: spec_fn(Op) -> Number, log: Seq<u8>) -> Seq<MetricView> {
    picked(
        json_lines(crate::bytes::byte_lines(crate::compression::sound_output(log))),
        pick_metric(f),
    ).map_values(labelled("isuscope.parser"@, "inline"@))
}

/// Reads the metrics in the log of the standard output.
pub fn read_inline_metrics<F: Fn(Op) -> Number>(log: &[u8], compute: &F) -> (r: Vec<Metric>)
    requires
        is_arithmetic(*compute),
    ensures
        value_views(r@) == inline_metrics(arithmetic(*compute), log@),
{
    let records = parse_protocol(log, compute);
    label_metrics(records.metrics, "isuscope.parser", "inline")
}

/// A benchmark that could not be run.
pub fn not_run(config: &BenchmarkConfig, error: String) -> (r: BenchmarkExecution)
    ensures
        r.result@ == (BenchmarkView {
            command: if config.mode == BenchmarkMode::Command {
                texts(config.command@)
            } else {
                Seq::empty()
            },
            passed: Some(false),
            error: Some(error@),
            ..blank_result(
                if config.mode == BenchmarkMode::Command {
                    "command"@
                } else {
                    "external"@
                },
            )
        }),
        r.logs@.len() == 0,
        r.metrics@.len() == 0,
{
    let mut result = match config.mode {
        BenchmarkMode::Command => {
            let mut result = blank("command");
            result.command = copied(&config.command);
            result
        },
        BenchmarkMode::External => blank("external"),
    };
    result.passed = Some(false);
    result.error = Some(error);
    BenchmarkExecution { result, logs: Vec::new(), metrics: Vec::new() }
}

/// Fills in when a benchmark ran, where that is not known better.
pub fn settle_times(result: &mut BenchmarkResult, started_at: Moment, finished_at: Moment)
    ensures
        final(result)@ == (BenchmarkView {
            started_at: if old(result).started_at is Some {
                old(result).started_at
            } else {
                Some(started_at)
            },
            finished_at: if old(result).finished_at is Some {
                old(result).finished_at
            } else {
                Some(finished_at)
            },
            ..old(result)@
        }),
{
    if result.started_at.is_none() {
        result.started_at = Some(started_at);
    }
    if result.finished_at.is_none() {
        result.finished_at = Some(finished_at);
    }
}

/// How far a benchmark that is started elsewhere has come.
#[derive(Clone, Copy, Debug, PartialEq, Eq, Structural)]
pub enum External {
    Armed,
    Started(Moment),
    Finished(Moment, Moment),
    Scored(Moment, Moment, Option<i64>),
}

/// Why an answer is refused.
#[derive(Clone, Copy, Debug, PartialEq, Eq, Structural)]
pub enum AnswerError {
    Score,
    Verdict,
}

impl AnswerError {
    pub open spec fn text(self) -> Seq<char> {
        match self {
            AnswerError::Score => "score must be an integer"@,
            AnswerError::Verdict => "result must be `pass` or `fail`"@,
        }
    }

    pub fn message(self) -> (r: String)
        ensures
            r@ == self.text(),
    {
        match self {
            AnswerError::Score => "score must be an integer".to_owned(),
            AnswerError::Verdict => "result must be `pass` or `fail`".to_owned(),
        }
    }
}

impl External {
    pub open spec fn question(self) -> Seq<char> {
        match self {
            External::Armed => "Press Enter immediately before starting the benchmark: "@,
            External::Started(_) => "Press Enter after the benchmark has finished: "@,
            External::Finished(_, _) => "Score (empty if unavailable): "@,
            External::Scored(_, _, _) => "Result [pass/fail]: "@,
        }
    }

    pub fn prompt(self) -> (r: &'static str)
        ensures
            r@ == self.question(),
    {
        match self {
            External::Armed => "Press Enter immediately before starting the benchmark: ",
            External::Started(_) => "Press Enter after the benchmark has finished: ",
            External::Finished(_, _) => "Score (empty if unavailable): ",
            External::Scored(_, _, _) => "Result [pass/fail]: ",
        }
    }

    pub open spec fn start(self) -> Option<Moment> {
        match self {
            External::Armed => None,
            External::Started(at) => Some(at),
            External::Finished(at, _) => Some(at),
            External::Scored(at, _, _) => Some(at),
        }
    }
}

/// What comes after an answer.
#[derive(Debug)]
pub enum ExternalStep {
    Ask(External),
    Done(BenchmarkResult),
    Refused(AnswerError),
}

#[verifier::ext_equal]
pub enum ExternalNext {
    Ask(External),
    Done(BenchmarkView),
    Refused(AnswerError),
}

impl View for ExternalStep {
    type V = ExternalNext;

    open spec fn view(&self) -> ExternalNext {
        match self {
            ExternalStep::Ask(state) => ExternalNext::Ask(*state),
            ExternalStep::Done(result) => ExternalNext::Done(result@),
            ExternalStep::Refused(error) => ExternalNext::Refused(*error),
        }
    }
}

/// The lowercase of the ASCII letters of a text.
pub open spec fn ascii_lowered(s: Seq<char>) -> Seq<char> {
    s.map_values(|c: char| ascii_lower(c))
}

/// Whether an answer says that the benchmark passed.
pub open spec fn answered(s: Seq<char>) -> Option<bool> {
    let word = ascii_lowered(trim(s));
    if word == "pass"@ || word == "p"@ {
        Some(true)
    } else if word == "fail"@ || word == "f"@ {
        Some(false)
    } else {
        None
    }
}

/// What was interrupted while it was waited for.
pub open spec fn interrupted_result(started_at: Option<Moment>, now: Moment) -> BenchmarkView {
    BenchmarkView {
        passed: Some(false),
        interrupted: true,
        started_at,
        finished_at: Some(now),
        error: Some("interrupted by signal"@),
        ..blank_result("external"@)
    }
}

/// What an answer, or the lack of one after an interruption, leads to.
pub open spec fn next_step(state: External, answer: Option<Seq<char>>, now: Moment) -> ExternalNext {
    match answer {
        None => ExternalNext::Done(interrupted_result(state.start(), now)),
        Some(text) => match state {
            External::Armed => ExternalNext::Ask(External::Started(now)),
            External::Started(at) => ExternalNext::Ask(External::Finished(at, now)),
            External::Finished(at, end) => if is_blank(text) {
                ExternalNext::Ask(External::Scored(at, end, None))
            } else {
                match parsed_signed(trim(text)) {
                    Some(score) => ExternalNext::Ask(
                        External::Scored(at, end, Some(score as i64)),
                    ),
                    None => ExternalNext::Refused(AnswerError::Score),
                }
            },
            External::Scored(at, end, score) => match answered(text) {
                Some(passed) => ExternalNext::Done(
                    BenchmarkView {
                        score,
                        passed: Some(passed),
                        started_at: Some(at),
                        finished_at: Some(end),
                        ..blank_result("external"@)
                    },
                ),
                None => ExternalNext::Refused(AnswerError::Verdict),
            },
        },
    }
}

/// The lowercase of the ASCII letters.
pub fn lower_ascii(s: &[char]) -> (out: Vec<char>)
    ensures
        out@ == ascii_lowered(s@),
{
    let mut out: Vec<char> = Vec::new();
    let mut i: usize = 0;
    while i < s.len()
        invariant
            i <= s@.len(),
            out@ == ascii_lowered(s@.take(i as int)),
        decreases s.len() - i,
    {
        let c = s[i];
        let l = if 'A' <= c && c <= 'Z' {
            ((c as u8) + 32) as char
        } else {
            c
        };
        out.push(l);
        assert(s@.take(i + 1) == s@.take(i as int).push(c));
        assert(ascii_lowered(s@.take(i + 1)) == ascii_lowered(s@.take(i as int)).push(
            ascii_lower(c),
        ));
        i += 1;
    }
    assert(s@.take(i as int) == s@);
    out
}

fn is_word(word: &[char], text: &str) -> (r: bool)
    ensures
        r == (word@ == text@),
{
    same_chars(word, chars_of(text).as_slice())
}

fn read_verdict(text: &str) -> (r: Option<bool>)
    ensures
        r == answered(text@),
{
    let short = trimmed(chars_of(text).as_slice());
    let word = lower_ascii(short.as_slice());
    if is_word(word.as_slice(), "pass") || is_word(word.as_slice(), "p") {
        Some(true)
    } else if is_word(word.as_slice(), "fail") || is_word(word.as_slice(), "f") {
        Some(false)
    } else {
        None
    }
}

fn interrupted_external(started_at: Option<Moment>, now: Moment) -> (r: BenchmarkResult)
    ensures
        r@ == interrupted_result(started_at, now),
{
    let mut result = blank("external");
    result.passed = Some(false);
    result.interrupted = true;
    result.started_at = started_at;
    result.finished_at = Some(now);
    result.error = Some("interrupted by signal".to_owned());
    result
}

/// Goes on from an answer, or ends where the wait for it was interrupted.
pub fn advance(state: External, answer: Option<&str>, now: Moment) -> (r: ExternalStep)
    ensures
        r@ == next_step(state, str_option(answer), now),
{
    let text = match answer {
        Some(text) => text,
        None => {
            let started_at = match state {
                External::Armed => None,
                External::Started(at) => Some(at),
                External::Finished(at, _) => Some(at),
                External::Scored(at, _, _) => Some(at),
            };
            return ExternalStep::Done(interrupted_external(started_at, now));
        },
    };
    match state {
        External::Armed => ExternalStep::Ask(External::Started(now)),
        External::Started(at) => ExternalStep::Ask(External::Finished(at, now)),
        External::Finished(at, end) => {
            let short = trimmed(chars_of(text).as_slice());
            if short.len() == 0 {
                return ExternalStep::Ask(External::Scored(at, end, None));
            }
            match signed_number(short.as_slice()) {
                Some(score) => ExternalStep::Ask(External::Scored(at, end, Some(score))),
                None => ExternalStep::Refused(AnswerError::Score),
            }
        },
        External::Scored(at, end, score) => match read_verdict(text) {
            Some(passed) => {
                let mut result = blank("external");
                result.score = score;
                result.passed = Some(passed);
                result.started_at = Some(at);
                result.finished_at = Some(end);
                ExternalStep::Done(result)
            },
            None => ExternalStep::Refused(AnswerError::Verdict),
        },
    }
}

} // verus!
