//! The parsers that turn the output of a benchmark into metrics and messages.
use crate::benchmark::{label_metrics, labelled};
use crate::brief::{first_seen, first_seen_holds};
use crate::bytes::{byte_lines, byte_lines_of, byte_views};
use crate::collector::{capture_error, capture_fault, option_list, Captured, LogView};
use crate::compression::{decompress_lines, sound_output};
use crate::config::{push_text, BenchmarkParserConfig};
use crate::join::{value_views, with_key};
use crate::json::{json_of_bytes, parse_bytes, Json, JsonView};
use crate::model::{
    BenchmarkMessage, BenchmarkMessageKind, EnrichmentResult, LogRef, Metric, MetricView,
};
use crate::number::{arithmetic, is_arithmetic, Number, Op};
use crate::paths::{join_path, joined_path};
use crate::protocol::{
    json_lines, parse_records, pick_fingerprint, pick_metric, pick_transition, picked,
};
use crate::report::text_option;
use crate::shell::{sanitize, sanitized};
use crate::text::{
    chars_of, decimal, decimal_of, glue2, glue3, join, joined, replace, replaced, same, shorten,
    shortened, signed_decimal, signed_decimal_of, string_of, texts, trim, trimmed, views,
};
use vstd::prelude::*;

verus! {

/// The label that names the parser of a metric.
pub const PARSER_LABEL: &'static str = "isuscope.parser";

/// Failure messages kept per parser. The first lines usually name the cause.
pub const MAX_FAILURE_MESSAGES: usize = 10;

/// Error samples kept per category.
pub const MAX_ERROR_SAMPLES_PER_CATEGORY: usize = 5;

/// Categories of errors kept per parser.
pub const MAX_ERROR_CATEGORIES: usize = 20;

pub const MAX_MESSAGE_CHARS: usize = 1000;

pub const MAX_CATEGORY_CHARS: usize = 200;

/// A parser that has run, with its logs and metrics.
#[derive(Debug)]
pub struct EnrichmentOutput {
    pub result: EnrichmentResult,
    pub logs: Vec<LogRef>,
    pub metrics: Vec<Metric>,
}

/// What came of applying the parsers to a saved run.
#[derive(Clone, Debug)]
pub struct EnrichOutcome {
    pub run_id: String,
    pub parser_count: usize,
    pub metric_count: usize,
    pub failed: bool,
}

#[verifier::ext_equal]
pub struct MessageView {
    pub kind: BenchmarkMessageKind,
    pub category: Option<Seq<char>>,
    pub text: Seq<char>,
}

impl View for BenchmarkMessage {
    type V = MessageView;

    open spec fn view(&self) -> MessageView {
        MessageView { kind: self.kind, category: text_option(self.category), text: self.text@ }
    }
}

/// What a line is to the messages of a parser.
#[derive(Debug)]
pub enum MessageLine {
    /// It is no message.
    Other,
    /// It is a message without a known kind or without a text.
    Invalid,
    Message(BenchmarkMessage),
}

#[verifier::ext_equal]
pub enum MessageReading {
    Other,
    Invalid,
    Message(MessageView),
}

impl View for MessageLine {
    type V = MessageReading;

    open spec fn view(&self) -> MessageReading {
        match self {
            MessageLine::Other => MessageReading::Other,
            MessageLine::Invalid => MessageReading::Invalid,
            MessageLine::Message(m) => MessageReading::Message(m@),
        }
    }
}

pub open spec fn kind_of(name: Option<Seq<char>>) -> Option<BenchmarkMessageKind> {
    if name == Some("failure"@) {
        Some(BenchmarkMessageKind::Failure)
    } else if name == Some("error"@) {
        Some(BenchmarkMessageKind::Error)
    } else {
        None
    }
}

/// A text without the space around it, where something is left.
pub open spec fn written_text(text: Option<Seq<char>>) -> Option<Seq<char>> {
    match text {
        Some(s) => if trim(s).len() == 0 {
            None
        } else {
            Some(trim(s))
        },
        None => None,
    }
}

pub open spec fn message_of(value: Option<JsonView>) -> MessageReading {
    match value {
        None => MessageReading::Other,
        Some(v) => if v.member_text("type"@) != Some("message"@) {
            MessageReading::Other
        } else {
            match (kind_of(v.member_text("kind"@)), written_text(v.member_text("text"@))) {
                (Some(kind), Some(text)) => MessageReading::Message(
                    MessageView {
                        kind,
                        category: match written_text(v.member_text("category"@)) {
                            Some(category) => Some(
                                shortened(category, MAX_CATEGORY_CHARS as nat),
                            ),
                            None => None,
                        },
                        text: shortened(text, MAX_MESSAGE_CHARS as nat),
                    },
                ),
                _ => MessageReading::Invalid,
            }
        },
    }
}

pub open spec fn pick_message() -> spec_fn(Option<JsonView>) -> Option<MessageView> {
    |v: Option<JsonView>|
        match message_of(v) {
            MessageReading::Message(m) => Some(m),
            _ => None,
        }
}

pub open spec fn pick_invalid() -> spec_fn(Option<JsonView>) -> Option<()> {
    |v: Option<JsonView>|
        if message_of(v) is Invalid {
            Some(())
        } else {
            None
        }
}

pub open spec fn is_failure() -> spec_fn(MessageView) -> bool {
    |m: MessageView| m.kind == BenchmarkMessageKind::Failure
}

pub open spec fn is_error() -> spec_fn(MessageView) -> bool {
    |m: MessageView| m.kind == BenchmarkMessageKind::Error
}

pub open spec fn message_category() -> spec_fn(MessageView) -> Option<Seq<char>> {
    |m: MessageView| m.category
}

/// The categories of some errors, in the order in which they first occur.
pub open spec fn error_categories(errors: Seq<MessageView>) -> Seq<Option<Seq<char>>> {
    first_seen(errors.map_values(message_category()))
}

/// The first `n` items, or all where there are not as many.
pub open spec fn first_of<T>(items: Seq<T>, n: nat) -> Seq<T> {
    if items.len() > n {
        items.take(n as int)
    } else {
        items
    }
}

/// Whether a message is kept after others. Of the failures the first are kept; of the errors the
/// first of each of the first categories.
pub open spec fn keeps(before: Seq<MessageView>, m: MessageView) -> bool {
    match m.kind {
        BenchmarkMessageKind::Failure => before.filter(is_failure()).len() < MAX_FAILURE_MESSAGES,
        BenchmarkMessageKind::Error => {
            let errors = before.filter(is_error());
            &&& first_of(
                error_categories(errors.push(m)),
                MAX_ERROR_CATEGORIES as nat,
            ).contains(m.category)
            &&& with_key(errors, message_category(), m.category).len()
                < MAX_ERROR_SAMPLES_PER_CATEGORY
        },
    }
}

/// The messages that are kept, in their order.
pub open spec fn kept(messages: Seq<MessageView>) -> Seq<MessageView>
    decreases messages.len(),
{
    if messages.len() == 0 {
        Seq::empty()
    } else if keeps(messages.drop_last(), messages.last()) {
        kept(messages.drop_last()).push(messages.last())
    } else {
        kept(messages.drop_last())
    }
}

/// The messages of a parser.
#[derive(Debug)]
pub struct ParsedMessages {
    pub messages: Vec<BenchmarkMessage>,
    pub omitted: usize,
    pub invalid: usize,
}

/// What the lines of a parser say: the messages that are kept, how many are not, and how many
/// lines are no messages though they say so.
pub open spec fn messages_of(values: Seq<Option<JsonView>>, parsed: ParsedMessages) -> bool {
    let all = picked(values, pick_message());
    &&& value_views(parsed.messages@) == kept(all)
    &&& parsed.omitted == all.len() - kept(all).len()
    &&& parsed.invalid == picked(values, pick_invalid()).len()
}

fn read_written(value: &Json, name: &str, limit: usize) -> (r: Option<String>)
    ensures
        text_option(r) == (match written_text(value@.member_text(name@)) {
            Some(s) => Some(shortened(s, limit as nat)),
            None => None,
        }),
{
    match value.get_str(name) {
        Some(text) => {
            let short = trimmed(chars_of(text).as_slice());
            if short.len() == 0 {
                return None;
            }
            Some(string_of(shorten(short.as_slice(), limit).as_slice()))
        },
        None => None,
    }
}

fn read_kind(value: &Json) -> (r: Option<BenchmarkMessageKind>)
    ensures
        r == kind_of(value@.member_text("kind"@)),
{
    match value.get_str("kind") {
        Some(name) => if same(name, "failure") {
            Some(BenchmarkMessageKind::Failure)
        } else if same(name, "error") {
            Some(BenchmarkMessageKind::Error)
        } else {
            None
        },
        None => None,
    }
}

/// Reads one line.
pub fn read_message(value: &Json) -> (r: MessageLine)
    ensures
        r@ == message_of(Some(value@)),
{
    let is_message = match value.get_str("type") {
        Some(kind) => same(kind, "message"),
        None => false,
    };
    if !is_message {
        return MessageLine::Other;
    }
    let kind = match read_kind(value) {
        Some(kind) => kind,
        None => {
            return MessageLine::Invalid;
        },
    };
    let text = match read_written(value, "text", MAX_MESSAGE_CHARS) {
        Some(text) => text,
        None => {
            return MessageLine::Invalid;
        },
    };
    let category = read_written(value, "category", MAX_CATEGORY_CHARS);
    MessageLine::Message(BenchmarkMessage { kind, category, text })
}

/// The samples seen of each category that is kept, up to the limit.
struct Samples {
    categories: Vec<Option<String>>,
    counts: Vec<usize>,
    failures: usize,
}

spec fn at_most(n: nat, limit: nat) -> nat {
    if n < limit {
        n
    } else {
        limit
    }
}

spec fn category_views(categories: Seq<Option<String>>) -> Seq<Option<Seq<char>>> {
    categories.map_values(|c: Option<String>| text_option(c))
}

/// What the samples say of the messages before.
spec fn sampled(before: Seq<MessageView>, s: Samples) -> bool {
    let errors = before.filter(is_error());
    &&& s.failures == at_most(before.filter(is_failure()).len(), MAX_FAILURE_MESSAGES as nat)
    &&& category_views(s.categories@) == first_of(
        error_categories(errors),
        MAX_ERROR_CATEGORIES as nat,
    )
    &&& s.counts@.len() == s.categories@.len()
    &&& forall|j: int|
        0 <= j < s.counts@.len() ==> #[trigger] s.counts@[j] == at_most(
            with_key(errors, message_category(), text_option(s.categories@[j])).len(),
            MAX_ERROR_SAMPLES_PER_CATEGORY as nat,
        )
}

fn same_option(a: &Option<String>, b: &Option<String>) -> (r: bool)
    ensures
        r == (text_option(*a) == text_option(*b)),
{
    match (a, b) {
        (Some(x), Some(y)) => same(x.as_str(), y.as_str()),
        (None, None) => true,
        _ => false,
    }
}

fn category_position(categories: &Vec<Option<String>>, category: &Option<String>) -> (r: Option<usize>)
    ensures
        match r {
            Some(j) => j < categories@.len() && text_option(categories@[j as int]) == text_option(
                *category,
            ),
            None => !category_views(categories@).contains(text_option(*category)),
        },
{
    let mut j: usize = 0;
    while j < categories.len()
        invariant
            j <= categories@.len(),
            forall|k: int|
                0 <= k < j ==> text_option(#[trigger] categories@[k]) != text_option(*category),
        decreases categories.len() - j,
    {
        if same_option(&categories[j], category) {
            return Some(j);
        }
        j += 1;
    }
    proof {
        let all = category_views(categories@);
        if all.contains(text_option(*category)) {
            let k = choose|k: int| 0 <= k < all.len() && all[k] == text_option(*category);
            assert(text_option(categories@[k]) == text_option(*category));
        }
    }
    None
}

/// One more error makes its own category longer by one, and no other.
proof fn one_more_error(errors: Seq<MessageView>, m: MessageView, k: Option<Seq<char>>)
    ensures
        with_key(errors.push(m), message_category(), k).len() == with_key(
            errors,
            message_category(),
            k,
        ).len() + if m.category == k {
            1int
        } else {
            0int
        },
{
    reveal(Seq::filter);
    assert(errors.push(m).drop_last() == errors);
}

/// The categories after one more error.
proof fn one_more_category(errors: Seq<MessageView>, m: MessageView)
    ensures
        error_categories(errors.push(m)) == (if error_categories(errors).contains(m.category) {
            error_categories(errors)
        } else {
            error_categories(errors).push(m.category)
        }),
        !error_categories(errors).contains(m.category) ==> with_key(
            errors,
            message_category(),
            m.category,
        ).len() == 0,
{
    let keys = errors.map_values(message_category());
    let more = errors.push(m).map_values(message_category());
    assert(more.drop_last() == keys);
    assert(more.last() == m.category);
    first_seen_holds(keys);
    if !error_categories(errors).contains(m.category) {
        crate::join::with_key_absent(errors, message_category(), m.category);
    }
}

/// Takes a message, and tells whether it is kept.
fn take_sample(s: &mut Samples, m: &BenchmarkMessage, Ghost(before): Ghost<Seq<MessageView>>) -> (r:
    bool)
    requires
        sampled(before, *old(s)),
    ensures
        r == keeps(before, m@),
        sampled(before.push(m@), *final(s)),
{
    let ghost errors = before.filter(is_error());
    let ghost cats = error_categories(errors);
    proof {
        reveal(Seq::filter);
        assert(before.push(m@).drop_last() == before);
    }
    match m.kind {
        BenchmarkMessageKind::Failure => {
            assert(before.push(m@).filter(is_error()) == errors);
            let fits = s.failures < MAX_FAILURE_MESSAGES;
            if fits {
                s.failures = s.failures + 1;
            }
            fits
        },
        BenchmarkMessageKind::Error => {
            assert(before.push(m@).filter(is_error()) == errors.push(m@));
            proof {
                one_more_category(errors, m@);
                first_seen_holds(errors.map_values(message_category()));
                assert forall|k: Option<Seq<char>>| true implies #[trigger] with_key(
                    errors.push(m@),
                    message_category(),
                    k,
                ).len() == with_key(errors, message_category(), k).len() + if m@.category == k {
                    1int
                } else {
                    0int
                } by {
                    one_more_error(errors, m@, k);
                }
            }
            let ghost now = error_categories(errors.push(m@));
            let ghost shown = first_of(cats, MAX_ERROR_CATEGORIES as nat);
            assert(category_views(s.categories@) == shown);
            assert(shown.len() == s.categories@.len());
            assert forall|k: int| 0 <= k < shown.len() implies #[trigger] shown[k] == cats[k] && k
                < cats.len() by {}
            match category_position(&s.categories, &m.category) {
                Some(j) => {
                    assert(category_views(s.categories@)[j as int] == m@.category);
                    assert(shown[j as int] == m@.category);
                    assert(shown[j as int] == cats[j as int]);
                    assert(cats.contains(cats[j as int]));
                    assert(shown.contains(m@.category));
                    let ghost was = *s;
                    let fits = s.counts[j] < MAX_ERROR_SAMPLES_PER_CATEGORY;
                    if fits {
                        let count: usize = s.counts[j] + 1;
                        s.counts.set(j, count);
                    }
                    proof {
                        assert forall|k: int| 0 <= k < s.counts@.len() implies #[trigger] s.counts@[k]
                            == at_most(
                            with_key(
                                errors.push(m@),
                                message_category(),
                                text_option(s.categories@[k]),
                            ).len(),
                            MAX_ERROR_SAMPLES_PER_CATEGORY as nat,
                        ) by {
                            assert(was.counts@[k] == at_most(
                                with_key(
                                    errors,
                                    message_category(),
                                    text_option(s.categories@[k]),
                                ).len(),
                                MAX_ERROR_SAMPLES_PER_CATEGORY as nat,
                            ));
                            if k != j {
                                assert(shown[k] == text_option(s.categories@[k])) by {
                                    assert(category_views(s.categories@)[k] == text_option(
                                        s.categories@[k],
                                    ));
                                }
                                assert(cats[k] == shown[k]);
                            }
                        }
                    }
                    fits
                },
                None => {
                    if s.categories.len() < MAX_ERROR_CATEGORIES {
                        let ghost was = *s;
                        proof {
                            assert(shown == cats);
                            assert(!cats.contains(m@.category));
                            assert(now == cats.push(m@.category));
                            assert(now.last() == m@.category);
                            assert(now.contains(m@.category));
                            assert(first_of(now, MAX_ERROR_CATEGORIES as nat) == now);
                        }
                        s.categories.push(m.category.clone());
                        s.counts.push(1);
                        proof {
                            assert(category_views(s.categories@) == category_views(
                                was.categories@,
                            ).push(m@.category));
                            assert forall|k: int| 0 <= k < s.counts@.len() implies #[trigger] s.counts@[k]
                                == at_most(
                                with_key(
                                    errors.push(m@),
                                    message_category(),
                                    text_option(s.categories@[k]),
                                ).len(),
                                MAX_ERROR_SAMPLES_PER_CATEGORY as nat,
                            ) by {
                                if k < was.counts@.len() {
                                    assert(was.counts@[k] == s.counts@[k]);
                                    assert(category_views(was.categories@)[k] == text_option(
                                        was.categories@[k],
                                    ));
                                    assert(cats[k] == text_option(was.categories@[k]));
                                    assert(cats.contains(cats[k]));
                                }
                            }
                        }
                        true
                    } else {
                        proof {
                            assert(shown == first_of(now, MAX_ERROR_CATEGORIES as nat));
                            assert forall|k: int| 0 <= k < s.counts@.len() implies #[trigger] s.counts@[k]
                                == at_most(
                                with_key(
                                    errors.push(m@),
                                    message_category(),
                                    text_option(s.categories@[k]),
                                ).len(),
                                MAX_ERROR_SAMPLES_PER_CATEGORY as nat,
                            ) by {
                                assert(category_views(s.categories@)[k] == text_option(
                                    s.categories@[k],
                                ));
                                assert(shown[k] == text_option(s.categories@[k]));
                                assert(shown.contains(shown[k]));
                            }
                        }
                        false
                    }
                },
            }
        },
    }
}

/// No more messages are kept than there are.
proof fn kept_is_shorter(messages: Seq<MessageView>)
    ensures
        kept(messages).len() <= messages.len(),
    decreases messages.len(),
{
    if messages.len() > 0 {
        kept_is_shorter(messages.drop_last());
    }
}

/// Reads the messages among the lines of a parser's output.
pub fn parse_messages(output: &[u8]) -> (r: ParsedMessages)
    ensures
        messages_of(json_lines(byte_lines(output@)), r),
{
    let lines = byte_lines_of(output);
    let ghost all_lines = byte_lines(output@);
    let ghost values = json_lines(all_lines);
    let mut parsed = ParsedMessages { messages: Vec::new(), omitted: 0, invalid: 0 };
    let mut samples = Samples { categories: Vec::new(), counts: Vec::new(), failures: 0 };
    let mut i: usize = 0;
    proof {
        reveal(Seq::filter);
        assert(values.take(0) == Seq::<Option<JsonView>>::empty());
        let none = picked(values.take(0), pick_message());
        assert(none == Seq::<MessageView>::empty());
        assert(value_views(parsed.messages@) == kept(none));
        assert(none.filter(is_error()) == Seq::<MessageView>::empty());
        assert(none.filter(is_error()).map_values(message_category()) == Seq::<
            Option<Seq<char>>,
        >::empty());
        assert(category_views(samples.categories@) == error_categories(none.filter(is_error())));
    }
    while i < lines.len()
        invariant
            i <= lines@.len(),
            all_lines == byte_views(lines@),
            values == json_lines(all_lines),
            messages_of(values.take(i as int), parsed),
            sampled(picked(values.take(i as int), pick_message()), samples),
            parsed.omitted + parsed.messages@.len() <= i,
            parsed.invalid <= i,
        decreases lines.len() - i,
    {
        let ghost before = picked(values.take(i as int), pick_message());
        let line = lines[i].as_slice();
        proof {
            assert(all_lines[i as int] == line@);
            assert(values.take(i + 1).drop_last() == values.take(i as int));
            assert(values.take(i + 1).last() == json_of_bytes(line@));
            kept_is_shorter(before);
        }
        match parse_bytes(line) {
            Some(value) => match read_message(&value) {
                MessageLine::Message(message) => {
                    let ghost was = parsed.messages@;
                    let fits = take_sample(&mut samples, &message, Ghost(before));
                    assert(before.push(message@).drop_last() == before);
                    if fits {
                        let ghost added = message@;
                        parsed.messages.push(message);
                        assert(value_views(parsed.messages@) == value_views(was).push(added));
                    } else {
                        parsed.omitted = parsed.omitted + 1;
                    }
                },
                MessageLine::Invalid => {
                    parsed.invalid = parsed.invalid + 1;
                },
                MessageLine::Other => {},
            },
            None => {},
        }
        i += 1;
    }
    assert(values.take(i as int) == values);
    parsed
}

/// A parser does not flood a run with messages: at most ten failures are kept.
pub proof fn few_failures_are_kept(messages: Seq<MessageView>)
    ensures
        kept(messages).filter(is_failure()).len() <= MAX_FAILURE_MESSAGES,
        messages.filter(is_failure()).len() <= MAX_FAILURE_MESSAGES ==> kept(messages).filter(
            is_failure(),
        ) == messages.filter(is_failure()),
    decreases messages.len(),
{
    reveal(Seq::filter);
    if messages.len() > 0 {
        let head = messages.drop_last();
        let m = messages.last();
        few_failures_are_kept(head);
        few_kept_failures(head);
        if keeps(head, m) {
            assert(kept(head).push(m).drop_last() == kept(head));
        }
    }
}

/// As many failures are kept as there are, up to the limit.
proof fn few_kept_failures(messages: Seq<MessageView>)
    ensures
        kept(messages).filter(is_failure()).len() == at_most(
            messages.filter(is_failure()).len(),
            MAX_FAILURE_MESSAGES as nat,
        ),
    decreases messages.len(),
{
    reveal(Seq::filter);
    if messages.len() > 0 {
        let head = messages.drop_last();
        few_kept_failures(head);
        if keeps(head, messages.last()) {
            assert(kept(head).push(messages.last()).drop_last() == kept(head));
        }
    }
}

/// At most five samples of a category of errors are kept.
pub proof fn few_samples_are_kept(messages: Seq<MessageView>, category: Option<Seq<char>>)
    ensures
        with_key(kept(messages).filter(is_error()), message_category(), category).len()
            <= MAX_ERROR_SAMPLES_PER_CATEGORY,
        with_key(kept(messages).filter(is_error()), message_category(), category).len() <= with_key(
            messages.filter(is_error()),
            message_category(),
            category,
        ).len(),
    decreases messages.len(),
{
    reveal(Seq::filter);
    if messages.len() > 0 {
        let head = messages.drop_last();
        let m = messages.last();
        few_samples_are_kept(head, category);
        let errors = head.filter(is_error());
        if m.kind == BenchmarkMessageKind::Error {
            assert(messages.filter(is_error()) == errors.push(m));
            one_more_error(errors, m, category);
        }
        if keeps(head, m) {
            assert(kept(head).push(m).drop_last() == kept(head));
            if m.kind == BenchmarkMessageKind::Error {
                one_more_error(kept(head).filter(is_error()), m, category);
            }
        }
    } else {
        assert(kept(messages).filter(is_error()) == Seq::<MessageView>::empty());
    }
}

/// Where a parser finds what it reads.
#[derive(Clone, Debug)]
pub struct ParserPlace {
    pub run_id: String,
    pub run_dir: String,
}

pub open spec fn stdout_log_of(run_dir: Seq<char>) -> Seq<char> {
    join_path(run_dir, "logs/benchmark-stdout.zst"@)
}

pub open spec fn stderr_log_of(run_dir: Seq<char>) -> Seq<char> {
    join_path(run_dir, "logs/benchmark-stderr.zst"@)
}

/// A word of the command of a parser, with the place of the run filled in.
pub open spec fn parser_word(place: ParserPlace, word: Seq<char>) -> Seq<char> {
    let a = replace(word, "{run_id}"@, place.run_id@);
    let b = replace(a, "{run_dir}"@, place.run_dir@);
    let c = replace(b, "{benchmark_stdout}"@, stdout_log_of(place.run_dir@));
    replace(c, "{benchmark_stderr}"@, stderr_log_of(place.run_dir@))
}

pub open spec fn parser_words(place: ParserPlace, words: Seq<Seq<char>>) -> Seq<Seq<char>> {
    words.map_values(|w: Seq<char>| parser_word(place, w))
}

pub open spec fn parser_prefix(name: Seq<char>) -> Seq<char> {
    "benchmark-parser-"@ + sanitized(name)
}

/// A parser that is ready to run.
#[derive(Debug)]
pub struct ParserPlan {
    pub command: Vec<String>,
    /// What the names of its logs begin with.
    pub prefix: String,
    pub stdout_log: String,
    pub stderr_log: String,
}

/// Why a parser cannot run.
#[derive(Clone, Debug)]
pub enum ParserError {
    /// The output of the benchmark is not at this place.
    NoOutput(String),
    NoCommand,
}

impl ParserError {
    pub open spec fn text(self) -> Seq<char> {
        match self {
            ParserError::NoOutput(path) => "benchmark stdout is missing: "@ + path@,
            ParserError::NoCommand => "benchmark parser command must not be empty"@,
        }
    }

    pub fn message(&self) -> (r: String)
        ensures
            r@ == self.text(),
    {
        match self {
            ParserError::NoOutput(path) => glue2("benchmark stdout is missing: ", path.as_str()),
            ParserError::NoCommand => "benchmark parser command must not be empty".to_owned(),
        }
    }
}

fn fill_one(word: &[char], name: &str, value: &str) -> (r: Vec<char>)
    ensures
        r@ == replace(word@, name@, value@),
{
    replaced(word, chars_of(name).as_slice(), chars_of(value).as_slice())
}

fn fill_word(place: &ParserPlace, word: &str, stdout_log: &str, stderr_log: &str) -> (r: String)
    requires
        stdout_log@ == stdout_log_of(place.run_dir@),
        stderr_log@ == stderr_log_of(place.run_dir@),
    ensures
        r@ == parser_word(*place, word@),
{
    let a = fill_one(chars_of(word).as_slice(), "{run_id}", place.run_id.as_str());
    let b = fill_one(a.as_slice(), "{run_dir}", place.run_dir.as_str());
    let c = fill_one(b.as_slice(), "{benchmark_stdout}", stdout_log);
    let d = fill_one(c.as_slice(), "{benchmark_stderr}", stderr_log);
    string_of(d.as_slice())
}

/// Readies a parser. `has_output` says whether the output of the benchmark was saved.
pub fn plan_parser(parser: &BenchmarkParserConfig, place: &ParserPlace, has_output: bool) -> (r:
    Result<ParserPlan, ParserError>)
    ensures
        match r {
            Ok(plan) => {
                &&& has_output
                &&& parser.command@.len() > 0
                &&& texts(plan.command@) == parser_words(*place, texts(parser.command@))
                &&& plan.prefix@ == parser_prefix(parser.name@)
                &&& plan.stdout_log@ == stdout_log_of(place.run_dir@)
                &&& plan.stderr_log@ == stderr_log_of(place.run_dir@)
            },
            Err(ParserError::NoOutput(path)) => !has_output && path@ == stdout_log_of(
                place.run_dir@,
            ),
            Err(ParserError::NoCommand) => has_output && parser.command@.len() == 0,
        },
{
    let stdout_log = joined_path(place.run_dir.as_str(), "logs/benchmark-stdout.zst");
    let stderr_log = joined_path(place.run_dir.as_str(), "logs/benchmark-stderr.zst");
    if !has_output {
        return Err(ParserError::NoOutput(stdout_log));
    }
    if parser.command.len() == 0 {
        return Err(ParserError::NoCommand);
    }
    let ghost all = texts(parser.command@);
    let ghost each = |w: Seq<char>| parser_word(*place, w);
    let mut command: Vec<String> = Vec::new();
    let mut i: usize = 0;
    while i < parser.command.len()
        invariant
            i <= parser.command@.len(),
            all == texts(parser.command@),
            each == (|w: Seq<char>| parser_word(*place, w)),
            stdout_log@ == stdout_log_of(place.run_dir@),
            stderr_log@ == stderr_log_of(place.run_dir@),
            texts(command@) == all.take(i as int).map_values(each),
        decreases parser.command.len() - i,
    {
        let word = fill_word(
            place,
            parser.command[i].as_str(),
            stdout_log.as_str(),
            stderr_log.as_str(),
        );
        push_text(&mut command, word.as_str());
        assert(all[i as int] == parser.command@[i as int]@);
        assert(all.take(i + 1).map_values(each) == all.take(i as int).map_values(each).push(
            each(all[i as int]),
        ));
        i += 1;
    }
    assert(all.take(i as int) == all);
    let prefix = glue2("benchmark-parser-", sanitize(parser.name.as_str()).as_str());
    Ok(ParserPlan { command, prefix, stdout_log, stderr_log })
}

/// How the wait for a parser ended.
#[derive(Debug)]
pub enum Waited {
    Exited(Option<i32>),
    Failed(String),
    TimedOut,
}

/// What is left of the output of a parser.
#[derive(Debug)]
pub enum SavedLog {
    Missing,
    Unreadable(String),
    /// The compressed log.
    Bytes(Vec<u8>),
}

/// What is known when a parser has ended.
#[derive(Debug)]
pub struct ParserEnding {
    pub waited: Waited,
    pub stdout: Captured,
    pub stderr: Captured,
    /// Why the log of the output could not be written.
    pub stdout_log_error: Option<String>,
    pub stderr_log_error: Option<String>,
    pub log: SavedLog,
}

pub open spec fn exit_of(waited: Waited) -> Option<i32> {
    match waited {
        Waited::Exited(code) => code,
        _ => None,
    }
}

pub open spec fn wait_fault(waited: Waited, seconds: nat) -> Option<Seq<char>> {
    match waited {
        Waited::Exited(_) => None,
        Waited::Failed(error) => Some("cannot wait for parser: "@ + error@),
        Waited::TimedOut => Some(
            "benchmark parser timed out after "@ + decimal(seconds) + "s"@,
        ),
    }
}

pub open spec fn exit_text(code: Option<i32>) -> Seq<char> {
    "benchmark parser exited with "@ + match code {
        Some(code) => signed_decimal(code as int),
        None => "no status"@,
    }
}

pub open spec fn save_fault(stream: Seq<char>, error: Option<Seq<char>>) -> Option<Seq<char>> {
    match error {
        Some(error) => Some("cannot save parser "@ + stream + ": "@ + error),
        None => None,
    }
}

/// The lines of a saved log.
pub open spec fn log_values(log: SavedLog) -> Seq<Option<JsonView>> {
    match log {
        SavedLog::Bytes(bytes) => json_lines(byte_lines(sound_output(bytes@))),
        _ => Seq::empty(),
    }
}

/// Records that a parser may not give.
pub open spec fn record_fault(log: SavedLog) -> Option<Seq<char>> {
    match log {
        SavedLog::Missing => None,
        SavedLog::Unreadable(error) => Some(
            "cannot parse benchmark parser output: "@ + error@,
        ),
        SavedLog::Bytes(_) => if picked(log_values(log), pick_fingerprint()).len() > 0 || picked(
            log_values(log),
            pick_transition(),
        ).len() > 0 {
            Some(
                "benchmark parsers may emit metric and message records only; fingerprint and transition records were ignored"@,
            )
        } else {
            None
        },
    }
}

/// Messages that are none.
pub open spec fn message_fault(log: SavedLog) -> Option<Seq<char>> {
    match log {
        SavedLog::Missing => None,
        SavedLog::Unreadable(error) => Some(
            "cannot parse benchmark parser messages: "@ + error@,
        ),
        SavedLog::Bytes(_) => {
            let invalid = picked(log_values(log), pick_invalid()).len();
            if invalid > 0 {
                Some(
                    decimal(invalid)
                        + " message records were ignored; kind must be `failure` or `error` and text must not be empty"@,
                )
            } else {
                None
            }
        },
    }
}

/// What went wrong while a parser ran.
pub open spec fn run_faults(parser: BenchmarkParserConfig, end: ParserEnding) -> Seq<Seq<char>> {
    let first = option_list(wait_fault(end.waited, parser.timeout_seconds as nat)) + option_list(
        capture_fault("stdout"@, end.stdout, parser.max_output_bytes as nat),
    ) + option_list(capture_fault("stderr"@, end.stderr, parser.max_output_bytes as nat));
    if exit_of(end.waited) != Some(0i32) && first.len() == 0 {
        seq![exit_text(exit_of(end.waited))]
    } else {
        first
    }
}

/// Everything that went wrong with a parser, in order.
pub open spec fn parser_faults(parser: BenchmarkParserConfig, end: ParserEnding) -> Seq<Seq<char>> {
    run_faults(parser, end) + option_list(
        save_fault("stdout"@, text_option(end.stdout_log_error)),
    ) + option_list(save_fault("stderr"@, text_option(end.stderr_log_error))) + option_list(
        record_fault(end.log),
    ) + option_list(message_fault(end.log))
}

/// The logs that were written.
pub open spec fn parser_logs(name: Seq<char>, end: ParserEnding) -> Seq<LogView> {
    let out = if end.stdout_log_error is None {
        seq![
            LogView {
                id: parser_prefix(name) + "-stdout"@,
                kind: "benchmark-parser:"@ + name + ":stdout"@,
                node: None,
            },
        ]
    } else {
        Seq::empty()
    };
    let err = if end.stderr_log_error is None {
        seq![
            LogView {
                id: parser_prefix(name) + "-stderr"@,
                kind: "benchmark-parser:"@ + name + ":stderr"@,
                node: None,
            },
        ]
    } else {
        Seq::empty()
    };
    out + err
}

pub open spec fn log_ids(logs: Seq<LogView>) -> Seq<Seq<char>> {
    logs.map_values(|l: LogView| l.id)
}

/// What comes of a parser that has ended.
pub open spec fn parser_output(
    f: spec_fn(Op) -> Number,
    parser: BenchmarkParserConfig,
    command: Seq<Seq<char>>,
    end: ParserEnding,
    out: EnrichmentOutput,
) -> bool {
    let faults = parser_faults(parser, end);
    let all = picked(log_values(end.log), pick_message());
    &&& out.result.name@ == parser.name@
    &&& out.result.status@ == if faults.len() == 0 {
        "complete"@
    } else {
        "failed"@
    }
    &&& texts(out.result.command@) == command
    &&& out.result.exit_code == exit_of(end.waited)
    &&& text_option(out.result.error) == if faults.len() == 0 {
        None
    } else {
        Some(join(faults, "; "@))
    }
    &&& value_views(out.logs@) == parser_logs(parser.name@, end)
    &&& texts(out.result.log_ids@) == log_ids(parser_logs(parser.name@, end))
    &&& out.result.tooling_path is None
    &&& value_views(out.result.messages@) == kept(all)
    &&& out.result.omitted_message_count == all.len() - kept(all).len()
    &&& value_views(out.metrics@) == picked(log_values(end.log), pick_metric(f)).map_values(
        labelled("isuscope.parser"@, parser.name@),
    )
}

fn add_fault(faults: &mut Vec<Vec<char>>, fault: Option<String>)
    ensures
        views(final(faults)@) == views(old(faults)@) + option_list(text_option(fault)),
{
    let ghost was = faults@;
    match fault {
        Some(text) => {
            let chars = chars_of(text.as_str());
            faults.push(chars);
            assert(views(faults@) == views(was) + seq![text@]);
        },
        None => {
            assert(views(was) + Seq::<Seq<char>>::empty() == views(was));
        },
    }
}

fn wait_error(waited: &Waited, seconds: u64) -> (r: Option<String>)
    ensures
        text_option(r) == wait_fault(*waited, seconds as nat),
{
    match waited {
        Waited::Exited(_) => None,
        Waited::Failed(error) => Some(glue2("cannot wait for parser: ", error.as_str())),
        Waited::TimedOut => {
            let text = string_of(decimal_of(seconds).as_slice());
            Some(glue3("benchmark parser timed out after ", text.as_str(), "s"))
        },
    }
}

fn collect_run_faults(parser: &BenchmarkParserConfig, end: &ParserEnding) -> (r: Vec<Vec<char>>)
    ensures
        views(r@) == run_faults(*parser, *end),
{
    let mut faults: Vec<Vec<char>> = Vec::new();
    assert(views(faults@) == Seq::<Seq<char>>::empty());
    add_fault(&mut faults, wait_error(&end.waited, parser.timeout_seconds));
    assert(Seq::<Seq<char>>::empty() + option_list(
        wait_fault(end.waited, parser.timeout_seconds as nat),
    ) == option_list(wait_fault(end.waited, parser.timeout_seconds as nat)));
    add_fault(&mut faults, capture_error("stdout", &end.stdout, parser.max_output_bytes));
    add_fault(&mut faults, capture_error("stderr", &end.stderr, parser.max_output_bytes));
    let code: Option<i32> = match &end.waited {
        Waited::Exited(code) => *code,
        _ => None,
    };
    let clean = match code {
        Some(code) => code == 0,
        None => false,
    };
    if !clean && faults.len() == 0 {
        assert(views(faults@).len() == 0);
        let text = match code {
            Some(code) => string_of(signed_decimal_of(code as i64).as_slice()),
            None => "no status".to_owned(),
        };
        let line = glue2("benchmark parser exited with ", text.as_str());
        let mut only: Vec<Vec<char>> = Vec::new();
        only.push(chars_of(line.as_str()));
        assert(views(only@) == seq![exit_text(exit_of(end.waited))]);
        return only;
    }
    assert(views(faults@).len() == faults@.len());
    faults
}

fn save_error(stream: &str, error: &Option<String>) -> (r: Option<String>)
    ensures
        text_option(r) == save_fault(stream@, text_option(*error)),
{
    match error {
        Some(error) => {
            let head = glue3("cannot save parser ", stream, ": ");
            Some(glue2(head.as_str(), error.as_str()))
        },
        None => None,
    }
}

fn parser_log(name: &str, stream: &str) -> (r: LogRef)
    ensures
        r@ == (LogView {
            id: parser_prefix(name@) + ("-"@ + stream@),
            kind: "benchmark-parser:"@ + name@ + (":"@ + stream@),
            node: None,
        }),
{
    let prefix = glue2("benchmark-parser-", sanitize(name).as_str());
    let end = glue2("-", stream);
    let tail = glue2(":", stream);
    LogRef {
        id: glue2(prefix.as_str(), end.as_str()),
        kind: glue3("benchmark-parser:", name, tail.as_str()),
        node: None,
    }
}

fn written_logs(name: &str, end: &ParserEnding) -> (r: Vec<LogRef>)
    ensures
        value_views(r@) == parser_logs(name@, *end),
{
    let mut logs: Vec<LogRef> = Vec::new();
    proof {
        reveal_strlit("-");
        reveal_strlit(":");
        reveal_strlit("stdout");
        reveal_strlit("stderr");
        reveal_strlit("-stdout");
        reveal_strlit("-stderr");
        reveal_strlit(":stdout");
        reveal_strlit(":stderr");
        assert("-"@ + "stdout"@ == "-stdout"@);
        assert("-"@ + "stderr"@ == "-stderr"@);
        assert(":"@ + "stdout"@ == ":stdout"@);
        assert(":"@ + "stderr"@ == ":stderr"@);
    }
    if end.stdout_log_error.is_none() {
        logs.push(parser_log(name, "stdout"));
    }
    if end.stderr_log_error.is_none() {
        logs.push(parser_log(name, "stderr"));
    }
    assert(value_views(logs@) == parser_logs(name@, *end));
    logs
}

fn ids_of(logs: &Vec<LogRef>) -> (r: Vec<String>)
    ensures
        texts(r@) == log_ids(value_views(logs@)),
{
    let mut out: Vec<String> = Vec::new();
    let ghost all = log_ids(value_views(logs@));
    let mut i: usize = 0;
    assert(texts(out@) == all.take(0));
    while i < logs.len()
        invariant
            i <= logs@.len(),
            all == log_ids(value_views(logs@)),
            texts(out@) == all.take(i as int),
        decreases logs.len() - i,
    {
        assert(all[i as int] == logs@[i as int].id@);
        push_text(&mut out, logs[i].id.as_str());
        assert(all.take(i + 1) == all.take(i as int).push(all[i as int]));
        i += 1;
    }
    assert(all.take(i as int) == all);
    out
}

/// What a log holds.
struct LogContents {
    metrics: Vec<Metric>,
    messages: Vec<BenchmarkMessage>,
    omitted: usize,
    record_fault: Option<String>,
    message_fault: Option<String>,
}

fn read_log<F: Fn(Op) -> Number>(log: &SavedLog, compute: &F) -> (r: LogContents)
    requires
        is_arithmetic(*compute),
    ensures
        ({
            let all = picked(log_values(*log), pick_message());
            &&& value_views(r.metrics@) == picked(
                log_values(*log),
                pick_metric(arithmetic(*compute)),
            )
            &&& value_views(r.messages@) == kept(all)
            &&& r.omitted == all.len() - kept(all).len()
            &&& text_option(r.record_fault) == record_fault(*log)
            &&& text_option(r.message_fault) == message_fault(*log)
        }),
{
    let bytes = match log {
        SavedLog::Missing => {
            let r = LogContents {
                metrics: Vec::new(),
                messages: Vec::new(),
                omitted: 0,
                record_fault: None,
                message_fault: None,
            };
            assert(value_views(r.metrics@) == Seq::<MetricView>::empty());
            assert(value_views(r.messages@) == Seq::<MessageView>::empty());
            return r;
        },
        SavedLog::Unreadable(error) => {
            let r = LogContents {
                metrics: Vec::new(),
                messages: Vec::new(),
                omitted: 0,
                record_fault: Some(
                    glue2("cannot parse benchmark parser output: ", error.as_str()),
                ),
                message_fault: Some(
                    glue2("cannot parse benchmark parser messages: ", error.as_str()),
                ),
            };
            assert(value_views(r.metrics@) == Seq::<MetricView>::empty());
            assert(value_views(r.messages@) == Seq::<MessageView>::empty());
            return r;
        },
        SavedLog::Bytes(bytes) => bytes,
    };
    let output = decompress_lines(bytes.as_slice());
    let records = parse_records(output.as_slice(), compute);
    let parsed = parse_messages(output.as_slice());
    assert(value_views(records.fingerprints@).len() == records.fingerprints@.len());
    assert(value_views(records.transitions@).len() == records.transitions@.len());
    let record_fault = if records.fingerprints.len() > 0 || records.transitions.len() > 0 {
        Some(
            "benchmark parsers may emit metric and message records only; fingerprint and transition records were ignored".to_owned(),
        )
    } else {
        None
    };
    let message_fault = if parsed.invalid > 0 {
        let count = string_of(decimal_of(parsed.invalid as u64).as_slice());
        Some(
            glue2(
                count.as_str(),
                " message records were ignored; kind must be `failure` or `error` and text must not be empty",
            ),
        )
    } else {
        None
    };
    LogContents {
        metrics: records.metrics,
        messages: parsed.messages,
        omitted: parsed.omitted,
        record_fault,
        message_fault,
    }
}

/// Says what comes of a parser that has ended.
pub fn finish_parser<F: Fn(Op) -> Number>(
    parser: &BenchmarkParserConfig,
    command: Vec<String>,
    end: &ParserEnding,
    compute: &F,
) -> (r: EnrichmentOutput)
    requires
        is_arithmetic(*compute),
    ensures
        parser_output(arithmetic(*compute), *parser, texts(command@), *end, r),
{
    let contents = read_log(&end.log, compute);
    let mut faults = collect_run_faults(parser, end);
    add_fault(&mut faults, save_error("stdout", &end.stdout_log_error));
    add_fault(&mut faults, save_error("stderr", &end.stderr_log_error));
    add_fault(&mut faults, contents.record_fault);
    add_fault(&mut faults, contents.message_fault);
    assert(views(faults@) == parser_faults(*parser, *end));
    assert(views(faults@).len() == faults@.len());
    let status = if faults.len() == 0 {
        "complete"
    } else {
        "failed"
    };
    let error = if faults.len() == 0 {
        None
    } else {
        Some(string_of(joined(faults.as_slice(), chars_of("; ").as_slice()).as_slice()))
    };
    let logs = written_logs(parser.name.as_str(), end);
    let ids = ids_of(&logs);
    let metrics = label_metrics(contents.metrics, PARSER_LABEL, parser.name.as_str());
    let exit_code: Option<i32> = match &end.waited {
        Waited::Exited(code) => *code,
        _ => None,
    };
    EnrichmentOutput {
        result: EnrichmentResult {
            name: parser.name.clone(),
            status: status.to_owned(),
            command,
            exit_code,
            error,
            log_ids: ids,
            tooling_path: None,
            messages: contents.messages,
            omitted_message_count: contents.omitted,
        },
        logs,
        metrics,
    }
}

/// A parser that could not be run.
pub fn failed_parser(parser: &BenchmarkParserConfig, error: String) -> (r: EnrichmentOutput)
    ensures
        r.result.name@ == parser.name@,
        r.result.status@ == "failed"@,
        texts(r.result.command@) == texts(parser.command@),
        r.result.exit_code is None,
        r.result.error == Some(error),
        r.result.log_ids@.len() == 0,
        r.result.tooling_path is None,
        r.result.messages@.len() == 0,
        r.result.omitted_message_count == 0,
        r.logs@.len() == 0,
        r.metrics@.len() == 0,
{
    EnrichmentOutput {
        result: EnrichmentResult {
            name: parser.name.clone(),
            status: "failed".to_owned(),
            command: crate::benchmark::copied(&parser.command),
            exit_code: None,
            error: Some(error),
            log_ids: Vec::new(),
            tooling_path: None,
            messages: Vec::new(),
            omitted_message_count: 0,
        },
        logs: Vec::new(),
        metrics: Vec::new(),
    }
}

/// Some parser failed.
pub open spec fn any_failed(outputs: Seq<EnrichmentOutput>) -> bool {
    exists|i: int| 0 <= i < outputs.len() && (#[trigger] outputs[i]).result.status@ == "failed"@
}

/// Says what came of applying the parsers to a saved run.
pub fn enrich_outcome(run_id: &str, outputs: &Vec<EnrichmentOutput>, metric_count: usize) -> (r:
    EnrichOutcome)
    ensures
        r.run_id@ == run_id@,
        r.parser_count == outputs@.len(),
        r.metric_count == metric_count,
        r.failed == any_failed(outputs@),
{
    let mut failed = false;
    let mut i: usize = 0;
    while i < outputs.len()
        invariant
            i <= outputs@.len(),
            failed == exists|j: int|
                0 <= j < i && (#[trigger] outputs@[j]).result.status@ == "failed"@,
        decreases outputs.len() - i,
    {
        if same(outputs[i].result.status.as_str(), "failed") {
            failed = true;
        }
        i += 1;
    }
    EnrichOutcome {
        run_id: run_id.to_owned(),
        parser_count: outputs.len(),
        metric_count,
        failed,
    }
}

} // verus!
