//! Processor samples that `perf script` printed.
use crate::join::{
    chain, grouped, ref_views, value_views, with_key, with_key_absent, with_key_holds,
};
use crate::labels::{labels1, labels3, no_labels, with_label, Pair};
use crate::model::{add_metric, on_calendar, Metric, MetricView};
use crate::moment::{from_timestamp, moment_at, BucketGrid, Moment};
use crate::number::{apply, arithmetic, count_value, is_arithmetic, Number, Op};
use crate::numeral::{is_reader, is_writer, read_number, reading, write_number, written};
use crate::order::{distinct_sorted, distinct_sorted_holds, models};
use crate::pattern::{captures, group, group_text, group_views, matched_groups};
use crate::protocol::{nanos_after, rest_nanos};
use crate::rounding::{floor, floor_of};
use crate::text::{
    all_digits, all_hex, chars_of, chars_option, digits_only, ends, ends_with, first_word, glue5,
    halves, hex_only, is_blank, join, joined, lines, lines_of, same_chars, split, split_at_each,
    split_once, starts, starts_with, string_of, strip_prefix, stripped_prefix, trim, trim_start,
    trimmed, trimmed_start, views, word_and_rest, words, words_of,
};
use vstd::prelude::*;

verus! {

/// The last component of a path that is a name, from the pieces between its slashes.
pub open spec fn last_name(pieces: Seq<Seq<char>>) -> Option<Seq<char>>
    decreases pieces.len(),
{
    if pieces.len() == 0 {
        None
    } else if pieces.last().len() == 0 || pieces.last() == "."@ {
        last_name(pieces.drop_last())
    } else if pieces.last() == ".."@ {
        None
    } else {
        Some(pieces.last())
    }
}

/// The file name of a path, where it ends in one.
pub open spec fn file_name(path: Seq<char>) -> Option<Seq<char>> {
    last_name(split(path, '/'))
}

pub fn name_of_file(path: &[char]) -> (r: Option<Vec<char>>)
    ensures
        chars_option(r) == file_name(path@),
{
    let mut pieces = split_at_each(path, '/');
    let dot = chars_of(".");
    let up = chars_of("..");
    while pieces.len() > 0
        invariant
            dot@ == "."@,
            up@ == ".."@,
            last_name(views(pieces@)) == file_name(path@),
        decreases pieces@.len(),
    {
        let ghost all = views(pieces@);
        let last = pieces.pop().unwrap();
        assert(all.last() == last@);
        assert(all.drop_last() == views(pieces@));
        if last.len() != 0 && !same_chars(last.as_slice(), dot.as_slice()) {
            if same_chars(last.as_slice(), up.as_slice()) {
                return None;
            }
            return Some(last);
        }
    }
    None
}

/// The text stands in square brackets.
pub open spec fn in_brackets(s: Seq<char>) -> bool {
    starts(s, "["@) && ends(s, "]"@)
}

fn is_bracketed(s: &[char]) -> (r: bool)
    ensures
        r == in_brackets(s@),
{
    starts_with(s, chars_of("[").as_slice()) && ends_with(s, chars_of("]").as_slice())
}

/// A binary by its file name; a name in square brackets stays.
pub open spec fn binary_name(value: Seq<char>) -> Seq<char> {
    let name = trim(value);
    if in_brackets(name) {
        name
    } else {
        match file_name(name) {
            Some(file) => file,
            None => name,
        }
    }
}

pub fn canonical_perf_binary(value: &[char]) -> (r: Vec<char>)
    ensures
        r@ == binary_name(value@),
{
    let name = trimmed(value);
    if is_bracketed(name.as_slice()) {
        return name;
    }
    match name_of_file(name.as_slice()) {
        Some(file) => file,
        None => name,
    }
}

/// A symbol without the mark of where it runs.
pub open spec fn symbol_name(value: Seq<char>) -> Seq<char> {
    let name = trim(value);
    match strip_prefix(name, "[.] "@) {
        Some(rest) => trim(rest),
        None => match strip_prefix(name, "[k] "@) {
            Some(rest) => trim(rest),
            None => match strip_prefix(name, "[u] "@) {
                Some(rest) => trim(rest),
                None => name,
            },
        },
    }
}

pub fn canonical_perf_symbol(value: &[char]) -> (r: Vec<char>)
    ensures
        r@ == symbol_name(value@),
{
    let name = trimmed(value);
    match stripped_prefix(name.as_slice(), chars_of("[.] ").as_slice()) {
        Some(rest) => trimmed(rest.as_slice()),
        None => match stripped_prefix(name.as_slice(), chars_of("[k] ").as_slice()) {
            Some(rest) => trimmed(rest.as_slice()),
            None => match stripped_prefix(name.as_slice(), chars_of("[u] ").as_slice()) {
                Some(rest) => trimmed(rest.as_slice()),
                None => name,
            },
        },
    }
}

/// The binary and the symbol at the leaf of a stack.
pub type LeafView = (Seq<char>, Seq<char>);

/// Where the processor was.
#[derive(Debug)]
pub struct Leaf {
    pub binary: String,
    pub symbol: String,
}

impl View for Leaf {
    type V = LeafView;

    open spec fn view(&self) -> LeafView {
        (self.binary@, self.symbol@)
    }
}

pub open spec fn leaf_option(leaf: Option<Leaf>) -> Option<LeafView> {
    match leaf {
        Some(l) => Some(l@),
        None => None,
    }
}

/// A symbol, before which the address may stand, and a binary in round brackets.
pub open spec fn symbol_pattern() -> Seq<char> {
    "(?P<symbol>.+?)\\s+\\((?P<dso>[^()]*)\\)\\s*$"@
}

/// A process, numbers, the time of a sample and the event.
pub open spec fn header_pattern() -> Seq<char> {
    "^(?P<prefix>\\S.*?)\\s+(?P<time>[0-9]+[.][0-9]+):\\s*(?P<rest>.*)$"@
}

/// A symbol without the address before it.
pub open spec fn without_address(symbol: Seq<char>) -> Seq<char> {
    let first = first_word(symbol);
    if first.len() > 0 && all_hex(first) {
        if first.len() < symbol.len() {
            trim(symbol.skip((first.len() + 1) as int))
        } else {
            "-"@
        }
    } else {
        symbol
    }
}

/// The leaf that the groups of the symbol pattern tell.
pub open spec fn leaf_of(groups: Option<Seq<Option<Seq<char>>>>) -> Option<LeafView> {
    match groups {
        Some(g) => Some(
            (
                binary_name(trim(group_text(g, 2))),
                symbol_name(without_address(trim(group_text(g, 1)))),
            ),
        ),
        None => None,
    }
}

fn group_chars(groups: &Vec<Option<String>>, i: usize) -> (r: Vec<char>)
    ensures
        r@ == group_text(
            groups@.map_values(|s: Option<String>| crate::report::text_option(s)),
            i as int,
        ),
{
    match group(groups, i) {
        Some(s) => chars_of(s.as_str()),
        None => {
            let r: Vec<char> = Vec::new();
            assert(r@ == Seq::<char>::empty());
            r
        },
    }
}

/// Reads the leaf from the groups of the symbol pattern.
pub fn leaf_from(groups: &Option<Vec<Option<String>>>) -> (r: Option<Leaf>)
    ensures
        leaf_option(r) == leaf_of(group_views(*groups)),
{
    match groups {
        Some(g) => {
            let binary = trimmed(group_chars(g, 2).as_slice());
            let raw = trimmed(group_chars(g, 1).as_slice());
            let (first, rest) = word_and_rest(raw.as_slice());
            let symbol = if first.len() > 0 && hex_only(first.as_slice()) {
                match rest {
                    Some(rest) => trimmed(rest.as_slice()),
                    None => chars_of("-"),
                }
            } else {
                raw
            };
            Some(
                Leaf {
                    binary: string_of(canonical_perf_binary(binary.as_slice()).as_slice()),
                    symbol: string_of(canonical_perf_symbol(symbol.as_slice()).as_slice()),
                },
            )
        },
        None => None,
    }
}

fn symbol_and_binary(text: &[char]) -> (r: Option<Leaf>)
    ensures
        leaf_option(r) == leaf_of(matched_groups(symbol_pattern(), text@)),
{
    let text = string_of(text);
    let groups = captures(
        "(?P<symbol>.+?)\\s+\\((?P<dso>[^()]*)\\)\\s*$",
        text.as_str(),
    );
    leaf_from(&groups)
}

/// A word that is a number, or stands in square brackets, ends the name of the process.
pub open spec fn ends_process(word: Seq<char>) -> bool {
    all_digits(word) || in_brackets(word)
}

/// The words up to the first that ends the name of the process.
pub open spec fn process_words(parts: Seq<Seq<char>>) -> Seq<Seq<char>>
    decreases parts.len(),
{
    if parts.len() == 0 || ends_process(parts[0]) {
        Seq::empty()
    } else {
        seq![parts[0]] + process_words(parts.skip(1))
    }
}

/// The name of the process before the numbers of a sample.
pub open spec fn process_name(prefix: Seq<char>) -> Seq<char> {
    let name = join(process_words(words(prefix)), " "@);
    if name.len() == 0 {
        "-"@
    } else {
        name
    }
}

fn process_from(prefix: &[char]) -> (r: String)
    ensures
        r@ == process_name(prefix@),
{
    let parts = words_of(prefix);
    let ghost all = words(prefix@);
    let mut kept: Vec<Vec<char>> = Vec::new();
    let mut i: usize = 0;
    assert(all.skip(0) == all);
    assert(views(kept@) + process_words(all.skip(0)) == process_words(all));
    while i < parts.len()
        invariant_except_break
            views(kept@) + process_words(all.skip(i as int)) == process_words(all),
        invariant
            i <= parts@.len(),
            all == views(parts@),
        ensures
            views(kept@) == process_words(all),
        decreases parts.len() - i,
    {
        let ghost rest = all.skip(i as int);
        assert(rest[0] == parts@[i as int]@);
        if digits_only(parts[i].as_slice()) || is_bracketed(parts[i].as_slice()) {
            assert(views(kept@) + process_words(rest) == views(kept@));
            break;
        }
        let word = crate::text::slice_of(parts[i].as_slice(), 0, parts[i].len());
        assert(word@ == parts@[i as int]@);
        let ghost was = kept@;
        kept.push(word);
        proof {
            assert(views(kept@) == views(was).push(rest[0]));
            assert(rest.skip(1) == all.skip(i + 1));
            assert(views(was) + (seq![rest[0]] + process_words(rest.skip(1))) == views(was).push(
                rest[0],
            ) + process_words(rest.skip(1)));
            if i + 1 == parts@.len() {
                assert(views(kept@) + process_words(all.skip(i + 1)) == views(kept@));
            }
        }
        i += 1;
    }
    let name = joined(kept.as_slice(), chars_of(" ").as_slice());
    if name.len() == 0 {
        "-".to_owned()
    } else {
        string_of(name.as_slice())
    }
}

/// What one line of the output says.
#[derive(Debug)]
pub enum PerfLine {
    /// A frame of a stack, with what it names.
    Frame(Option<Leaf>),
    /// The header of a sample: the process, the time where it can be read, and the leaf where the
    /// header names it.
    Header(String, Option<Number>, Option<Leaf>),
    /// A line of another form.
    Text,
}

pub enum PerfLineView {
    Frame(Option<LeafView>),
    Header(Seq<char>, Option<Number>, Option<LeafView>),
    Text,
}

impl View for PerfLine {
    type V = PerfLineView;

    open spec fn view(&self) -> PerfLineView {
        match self {
            PerfLine::Frame(leaf) => PerfLineView::Frame(leaf_option(*leaf)),
            PerfLine::Header(process, time, leaf) => PerfLineView::Header(
                process@,
                *time,
                leaf_option(*leaf),
            ),
            PerfLine::Text => PerfLineView::Text,
        }
    }
}

/// A comment or a blank line.
pub open spec fn is_aside(line: Seq<char>) -> bool {
    starts(line, "#"@) || is_blank(line)
}

/// The leaf that the header of a sample names after its event.
pub open spec fn inline_leaf(rest: Seq<char>) -> Option<LeafView> {
    match split_once(rest, ": "@) {
        Some((_, sample)) => leaf_of(matched_groups(symbol_pattern(), trim(sample))),
        None => None,
    }
}

/// What a line says, which is neither a comment nor blank.
pub open spec fn line_of(number: spec_fn(Seq<char>) -> Option<Number>, line: Seq<char>) -> PerfLineView {
    if starts(line, "\t"@) {
        PerfLineView::Frame(leaf_of(matched_groups(symbol_pattern(), trim(line))))
    } else {
        match matched_groups(header_pattern(), trim_start(line)) {
            Some(g) => PerfLineView::Header(
                process_name(group_text(g, 1)),
                number(group_text(g, 2)),
                inline_leaf(group_text(g, 3)),
            ),
            None => PerfLineView::Text,
        }
    }
}

fn line_from<R: Fn(&str) -> Option<Number>>(line: &Vec<char>, read: &R) -> (r: PerfLine)
    requires
        is_reader(*read),
    ensures
        r@ == line_of(reading(*read), line@),
{
    if starts_with(line.as_slice(), chars_of("\t").as_slice()) {
        return PerfLine::Frame(symbol_and_binary(trimmed(line.as_slice()).as_slice()));
    }
    let text = string_of(trimmed_start(line.as_slice()).as_slice());
    match captures(
        "^(?P<prefix>\\S.*?)\\s+(?P<time>[0-9]+[.][0-9]+):\\s*(?P<rest>.*)$",
        text.as_str(),
    ) {
        Some(groups) => {
            let prefix = group_chars(&groups, 1);
            let time = group_chars(&groups, 2);
            let rest = group_chars(&groups, 3);
            let leaf = match halves(rest.as_slice(), chars_of(": ").as_slice()) {
                Some((_, sample)) => symbol_and_binary(trimmed(sample.as_slice()).as_slice()),
                None => None,
            };
            PerfLine::Header(
                process_from(prefix.as_slice()),
                read_number(read, time.as_slice()),
                leaf,
            )
        },
        None => PerfLine::Text,
    }
}

/// The lines that are neither comments nor blank.
pub open spec fn is_content() -> spec_fn(Seq<char>) -> bool {
    |line: Seq<char>| !is_aside(line)
}

/// What the lines of an output say.
pub open spec fn lines_in(number: spec_fn(Seq<char>) -> Option<Number>, raw: Seq<char>) -> Seq<
    PerfLineView,
> {
    lines(raw).filter(is_content()).map_values(|l: Seq<char>| line_of(number, l))
}

/// The rest of the first line that begins with `prefix`.
pub open spec fn marked(log: Seq<Seq<char>>, prefix: Seq<char>) -> Option<Seq<char>>
    decreases log.len(),
{
    if log.len() == 0 {
        None
    } else if starts(log[0], prefix) {
        Some(log[0].skip(prefix.len() as int))
    } else {
        marked(log.skip(1), prefix)
    }
}

fn find_marked(log: &Vec<Vec<char>>, prefix: &str) -> (r: Option<Vec<char>>)
    ensures
        chars_option(r) == marked(views(log@), prefix@),
{
    let p = chars_of(prefix);
    let ghost all = views(log@);
    let mut i: usize = 0;
    assert(all.skip(0) == all);
    while i < log.len()
        invariant
            i <= log@.len(),
            p@ == prefix@,
            all == views(log@),
            marked(all, prefix@) == marked(all.skip(i as int), prefix@),
        decreases log.len() - i,
    {
        assert(all.skip(i as int)[0] == log@[i as int]@);
        match stripped_prefix(log[i].as_slice(), p.as_slice()) {
            Some(rest) => {
                return Some(rest);
            },
            None => {},
        }
        assert(all.skip(i as int).skip(1) == all.skip(i + 1));
        i += 1;
    }
    None
}

/// The clock of the samples: what is added to their time, and the wall clock at the start where
/// the clock of the samples was recorded with it.
#[derive(Clone, Copy, Debug, PartialEq, Eq, Structural)]
pub struct PerfClock {
    pub start: Number,
    pub marker: Option<Number>,
}

/// The wall clock and the uptime at the start, where both were recorded.
pub open spec fn recorded_clock(
    number: spec_fn(Seq<char>) -> Option<Number>,
    log: Seq<Seq<char>>,
) -> Option<(Number, Number)> {
    match marked(log, "# isuscope-perf-clock "@) {
        Some(rest) => {
            let fields = words(rest);
            if fields.len() >= 2 {
                match (number(fields[0]), number(fields[1])) {
                    (Some(wall), Some(uptime)) => Some((wall, uptime)),
                    _ => None,
                }
            } else {
                None
            }
        },
        None => None,
    }
}

/// The clock of an output, where it records one.
pub open spec fn clock_of(
    f: spec_fn(Op) -> Number,
    number: spec_fn(Seq<char>) -> Option<Number>,
    log: Seq<Seq<char>>,
) -> Option<PerfClock> {
    match recorded_clock(number, log) {
        Some((wall, uptime)) => Some(
            PerfClock { start: f(Op::Subtract(wall, uptime)), marker: Some(wall) },
        ),
        None => match marked(log, "# isuscope-perf-start "@) {
            Some(rest) => match number(trim(rest)) {
                Some(start) => Some(PerfClock { start, marker: None }),
                None => None,
            },
            None => None,
        },
    }
}

fn clock_from<F: Fn(Op) -> Number, R: Fn(&str) -> Option<Number>>(
    log: &Vec<Vec<char>>,
    compute: &F,
    read: &R,
) -> (r: Option<PerfClock>)
    requires
        is_arithmetic(*compute),
        is_reader(*read),
    ensures
        r == clock_of(arithmetic(*compute), reading(*read), views(log@)),
{
    let recorded: Option<(Number, Number)> = match find_marked(log, "# isuscope-perf-clock ") {
        Some(rest) => {
            let fields = words_of(rest.as_slice());
            let ghost all = words(rest@);
            if fields.len() >= 2 {
                assert(all[0] == fields@[0]@ && all[1] == fields@[1]@);
                match (
                    read_number(read, fields[0].as_slice()),
                    read_number(read, fields[1].as_slice()),
                ) {
                    (Some(wall), Some(uptime)) => Some((wall, uptime)),
                    _ => None,
                }
            } else {
                None
            }
        },
        None => None,
    };
    match recorded {
        Some((wall, uptime)) => Some(
            PerfClock { start: apply(compute, Op::Subtract(wall, uptime)), marker: Some(wall) },
        ),
        None => match find_marked(log, "# isuscope-perf-start ") {
            Some(rest) => match read_number(read, trimmed(rest.as_slice()).as_slice()) {
                Some(start) => Some(PerfClock { start, marker: None }),
                None => None,
            },
            None => None,
        },
    }
}

/// Why an output of `perf script` cannot be used.
#[derive(Clone, Copy, Debug, PartialEq, Eq, Structural)]
pub enum PerfError {
    /// The output records no clock.
    NoStart,
    /// The time of a sample cannot be read.
    BadTime,
    /// The time of a sample, on the wall clock, does not fit the recorded start.
    ClockMismatch(Number, Number),
    /// There are lines, and none of them is a sample.
    NoSamples,
}

impl PerfError {
    pub open spec fn text(self, g: spec_fn(Number, u32) -> Seq<char>) -> Seq<char> {
        match self {
            PerfError::NoStart => "perf script output has no valid isuscope start marker"@,
            PerfError::BadTime => "invalid float literal"@,
            PerfError::ClockMismatch(wall, start) => "perf sample time "@ + g(wall, 3)
                + " does not match the recorded clock (started at "@ + g(start, 3) + ")"@,
            PerfError::NoSamples =>
                "perf script output contained samples but none matched the supported format"@,
        }
    }

    pub fn message<S: Fn(Number, u32) -> String>(self, show: &S) -> (r: String)
        requires
            is_writer(*show),
        ensures
            r@ == self.text(written(*show)),
    {
        match self {
            PerfError::NoStart => {
                "perf script output has no valid isuscope start marker".to_owned()
            },
            PerfError::BadTime => "invalid float literal".to_owned(),
            PerfError::ClockMismatch(wall, start) => {
                let found = write_number(show, wall, 3);
                let marked = write_number(show, start, 3);
                glue5(
                    "perf sample time ",
                    found.as_str(),
                    " does not match the recorded clock (started at ",
                    marked.as_str(),
                    ")",
                )
            },
            PerfError::NoSamples => {
                "perf script output contained samples but none matched the supported format".to_owned()
            },
        }
    }
}

/// One sample: the bucket of its time, the process and the leaf.
#[derive(Debug)]
pub struct Sample {
    pub bucket: Moment,
    pub process: String,
    pub leaf: Option<Leaf>,
}

#[verifier::ext_equal]
pub struct SampleView {
    pub bucket: int,
    pub process: Seq<char>,
    pub leaf: Option<LeafView>,
}

impl View for Sample {
    type V = SampleView;

    open spec fn view(&self) -> SampleView {
        SampleView {
            bucket: self.bucket.nanos as int,
            process: self.process@,
            leaf: leaf_option(self.leaf),
        }
    }
}

/// What was read so far.
#[verifier::ext_equal]
pub struct Scan {
    pub done: Seq<SampleView>,
    pub pending: Option<SampleView>,
    pub fault: Option<PerfError>,
}

/// The wall clock of a sample fits the recorded start: from an hour before it to a day after it.
pub open spec fn fits(f: spec_fn(Op) -> Number, marker: Number, wall: Number) -> bool {
    &&& f(Op::Subtract(marker, f(Op::Integer(3_600)))).at_most(wall)
    &&& wall.at_most(f(Op::Add(marker, f(Op::Integer(86_400)))))
}

/// The point in time of a number of seconds since the epoch.
pub open spec fn wall_time(f: spec_fn(Op) -> Number, wall: Number) -> Option<Moment> {
    let nanos = rest_nanos(f, wall);
    moment_at(
        floor_of(wall),
        if nanos > 999_999_999 {
            999_999_999
        } else {
            nanos
        },
    )
}

pub open spec fn settled(done: Seq<SampleView>, pending: Option<SampleView>) -> Seq<SampleView> {
    match pending {
        Some(sample) => done.push(sample),
        None => done,
    }
}

/// Reads one more line: a header ends the sample before it, and the first frame after a header
/// that names no leaf names it.
pub open spec fn scan_line(
    f: spec_fn(Op) -> Number,
    clock: PerfClock,
    grid: BucketGrid,
    state: Scan,
    line: PerfLineView,
) -> Scan {
    if state.fault is Some {
        state
    } else {
        match line {
            PerfLineView::Text => state,
            PerfLineView::Frame(leaf) => match state.pending {
                Some(sample) => if sample.leaf is None {
                    Scan { pending: Some(SampleView { leaf, ..sample }), ..state }
                } else {
                    state
                },
                None => state,
            },
            PerfLineView::Header(process, time, leaf) => {
                let done = settled(state.done, state.pending);
                match time {
                    None => Scan { done, pending: None, fault: Some(PerfError::BadTime) },
                    Some(relative) => {
                        let wall = f(Op::Add(clock.start, relative));
                        if clock.marker matches Some(marker) && !fits(f, marker, wall) {
                            Scan {
                                done,
                                pending: None,
                                fault: Some(PerfError::ClockMismatch(wall, clock.marker->0)),
                            }
                        } else {
                            Scan {
                                done,
                                pending: match wall_time(f, wall) {
                                    Some(at) => Some(
                                        SampleView {
                                            bucket: grid.bucket_spec(at).nanos as int,
                                            process,
                                            leaf,
                                        },
                                    ),
                                    None => None,
                                },
                                fault: None,
                            }
                        }
                    },
                }
            },
        }
    }
}

pub open spec fn scan(
    f: spec_fn(Op) -> Number,
    clock: PerfClock,
    grid: BucketGrid,
    all: Seq<PerfLineView>,
) -> Scan
    decreases all.len(),
{
    if all.len() == 0 {
        Scan { done: Seq::empty(), pending: None, fault: None }
    } else {
        scan_line(f, clock, grid, scan(f, clock, grid, all.drop_last()), all.last())
    }
}

/// The samples of an output, or what is wrong with it.
pub open spec fn samples_of(
    f: spec_fn(Op) -> Number,
    clock: PerfClock,
    grid: BucketGrid,
    all: Seq<PerfLineView>,
) -> Result<Seq<SampleView>, PerfError> {
    let end = scan(f, clock, grid, all);
    let samples = settled(end.done, end.pending);
    match end.fault {
        Some(fault) => Err(fault),
        None => if all.len() > 0 && samples.len() == 0 {
            Err(PerfError::NoSamples)
        } else {
            Ok(samples)
        },
    }
}

pub open spec fn sample_option(sample: Option<Sample>) -> Option<SampleView> {
    match sample {
        Some(s) => Some(s@),
        None => None,
    }
}

fn settle(done: &mut Vec<Sample>, pending: Option<Sample>)
    ensures
        value_views(final(done)@) == settled(value_views(old(done)@), sample_option(pending)),
{
    match pending {
        Some(sample) => {
            let ghost was = done@;
            done.push(sample);
            assert(value_views(done@) == value_views(was).push(sample@));
        },
        None => {},
    }
}

/// Gathers the samples from the lines of an output.
pub fn gather<F: Fn(Op) -> Number>(
    content: Vec<PerfLine>,
    clock: PerfClock,
    grid: BucketGrid,
    compute: &F,
) -> (r: Result<Vec<Sample>, PerfError>)
    requires
        is_arithmetic(*compute),
        on_calendar(grid.origin),
        on_calendar(grid.begin),
    ensures
        ({
            let found = samples_of(arithmetic(*compute), clock, grid, value_views(content@));
            match r {
                Ok(samples) => found == Ok::<_, PerfError>(value_views(samples@)),
                Err(error) => found == Err::<Seq<SampleView>, _>(error),
            }
        }),
{
    let ghost f = arithmetic(*compute);
    let ghost source = content@;
    let ghost all = value_views(source);
    let mut done: Vec<Sample> = Vec::new();
    let mut pending: Option<Sample> = None;
    let mut fault: Option<PerfError> = None;
    let any = content.len() > 0;
    proof {
        assert(all.take(0) == Seq::<PerfLineView>::empty());
        assert(value_views(done@) == Seq::<SampleView>::empty());
    }
    for line in it: content
        invariant
            is_arithmetic(*compute),
            f == arithmetic(*compute),
            it.seq() == source,
            all == value_views(source),
            on_calendar(grid.origin),
            on_calendar(grid.begin),
            scan(f, clock, grid, all.take(it.index() as int)) == (Scan {
                done: value_views(done@),
                pending: sample_option(pending),
                fault,
            }),
    {
        proof {
            let next = all.take(it.index() + 1);
            assert(next.drop_last() == all.take(it.index() as int));
            assert(next.last() == line@);
        }
        if fault.is_none() {
            match line {
                PerfLine::Text => {},
                PerfLine::Frame(leaf) => {
                    let waits = match &pending {
                        Some(sample) => sample.leaf.is_none(),
                        None => false,
                    };
                    if waits {
                        match pending.take() {
                            Some(sample) => {
                                pending = Some(
                                    Sample {
                                        bucket: sample.bucket,
                                        process: sample.process,
                                        leaf,
                                    },
                                );
                            },
                            None => {},
                        }
                    }
                },
                PerfLine::Header(process, time, leaf) => {
                    settle(&mut done, pending);
                    pending = None;
                    match time {
                        None => {
                            fault = Some(PerfError::BadTime);
                        },
                        Some(relative) => {
                            let wall = apply(compute, Op::Add(clock.start, relative));
                            let misfit: Option<Number> = match clock.marker {
                                Some(marker) => {
                                    let hour = apply(compute, Op::Integer(3_600));
                                    let day = apply(compute, Op::Integer(86_400));
                                    let first = apply(compute, Op::Subtract(marker, hour));
                                    let last = apply(compute, Op::Add(marker, day));
                                    if first.within(wall) && wall.within(last) {
                                        None
                                    } else {
                                        Some(marker)
                                    }
                                },
                                None => None,
                            };
                            match misfit {
                                Some(marker) => {
                                    fault = Some(PerfError::ClockMismatch(wall, marker));
                                },
                                None => {
                                    let nanos: u32 = nanos_after(wall, compute);
                                    let nanos: u32 = if nanos > 999_999_999 {
                                        999_999_999
                                    } else {
                                        nanos
                                    };
                                    match from_timestamp(floor(wall), nanos) {
                                        Some(at) => {
                                            pending = Some(
                                                Sample {
                                                    bucket: grid.bucket(at),
                                                    process,
                                                    leaf,
                                                },
                                            );
                                        },
                                        None => {},
                                    }
                                },
                            }
                        },
                    }
                },
            }
        }
    }
    assert(all.take(all.len() as int) == all);
    match fault {
        Some(error) => {
            return Err(error);
        },
        None => {},
    }
    settle(&mut done, pending);
    if any && done.len() == 0 {
        return Err(PerfError::NoSamples);
    }
    Ok(done)
}

pub open spec fn leaf_or_unknown(sample: SampleView) -> LeafView {
    match sample.leaf {
        Some(leaf) => leaf,
        None => ("[unknown]"@, "[unknown]"@),
    }
}

/// The process, the binary and the symbol of a sample.
pub type SpotModel = (Seq<char>, (Seq<char>, Seq<char>));

type Spot = (String, (String, String));

pub open spec fn spot_of() -> spec_fn(SampleView) -> SpotModel {
    |s: SampleView| (s.process, leaf_or_unknown(s))
}

pub open spec fn timed_spot_of() -> spec_fn(SampleView) -> (int, SpotModel) {
    |s: SampleView| (s.bucket, (s.process, leaf_or_unknown(s)))
}

pub open spec fn bucket_key() -> spec_fn(SampleView) -> int {
    |s: SampleView| s.bucket
}

pub open spec fn process_key() -> spec_fn(SampleView) -> Seq<char> {
    |s: SampleView| s.process
}

pub open spec fn timed_process_key() -> spec_fn(SampleView) -> (int, Seq<char>) {
    |s: SampleView| (s.bucket, s.process)
}

/// How much `count` is of `total`, in percent.
pub open spec fn share_of(f: spec_fn(Op) -> Number, count: nat, total: nat) -> Number {
    f(
        Op::Multiply(
            f(Op::Divide(count_value(f, count), count_value(f, total))),
            f(Op::Integer(100)),
        ),
    )
}

fn share<F: Fn(Op) -> Number>(count: usize, total: usize, compute: &F) -> (r: Number)
    requires
        is_arithmetic(*compute),
    ensures
        r == share_of(arithmetic(*compute), count as nat, total as nat),
{
    let a = apply(compute, Op::Integer(count as i64));
    let b = apply(compute, Op::Integer(total as i64));
    let ratio = apply(compute, Op::Divide(a, b));
    let hundred = apply(compute, Op::Integer(100));
    apply(compute, Op::Multiply(ratio, hundred))
}

pub open spec fn spot_labels(spot: SpotModel) -> Seq<Pair> {
    with_label(
        with_label(
            with_label(no_labels(), "process"@, spot.0),
            "binary"@,
            spot.1.0,
        ),
        "symbol"@,
        spot.1.1,
    )
}

/// The number of samples at a symbol, and their share of the samples of the same time.
pub open spec fn spot_rows(
    f: spec_fn(Op) -> Number,
    at: Option<Moment>,
    spot: SpotModel,
    count: nat,
    total: nat,
) -> Seq<MetricView> {
    seq![
        MetricView {
            name: "cpu.sample_count"@,
            value: count_value(f, count),
            unit: "samples"@,
            timestamp: at,
            labels: spot_labels(spot),
        },
        MetricView {
            name: "cpu.sample_percent"@,
            value: share_of(f, count, total),
            unit: "percent"@,
            timestamp: at,
            labels: spot_labels(spot),
        },
    ]
}

/// The share of a process in the samples of the same time.
pub open spec fn process_row(
    f: spec_fn(Op) -> Number,
    at: Option<Moment>,
    process: Seq<char>,
    count: nat,
    total: nat,
) -> MetricView {
    MetricView {
        name: "cpu.process_percent"@,
        value: share_of(f, count, total),
        unit: "percent"@,
        timestamp: at,
        labels: with_label(no_labels(), "process"@, process),
    }
}

pub open spec fn moment(nanos: int) -> Moment {
    Moment { nanos: nanos as i128 }
}

pub open spec fn samples_at(samples: Seq<SampleView>, bucket: int) -> nat {
    with_key(samples, bucket_key(), bucket).len()
}

pub open spec fn timed_spot_rows(f: spec_fn(Op) -> Number, samples: Seq<SampleView>) -> spec_fn(
    (int, SpotModel),
) -> Seq<MetricView> {
    |k: (int, SpotModel)|
        spot_rows(
            f,
            Some(moment(k.0)),
            k.1,
            with_key(samples, timed_spot_of(), k).len(),
            samples_at(samples, k.0),
        )
}

pub open spec fn whole_spot_rows(f: spec_fn(Op) -> Number, samples: Seq<SampleView>) -> spec_fn(
    SpotModel,
) -> Seq<MetricView> {
    |k: SpotModel| spot_rows(f, None, k, with_key(samples, spot_of(), k).len(), samples.len())
}

pub open spec fn timed_process_rows(f: spec_fn(Op) -> Number, samples: Seq<SampleView>) -> spec_fn(
    (int, Seq<char>),
) -> MetricView {
    |k: (int, Seq<char>)|
        process_row(
            f,
            Some(moment(k.0)),
            k.1,
            with_key(samples, timed_process_key(), k).len(),
            samples_at(samples, k.0),
        )
}

pub open spec fn whole_process_rows(f: spec_fn(Op) -> Number, samples: Seq<SampleView>) -> spec_fn(
    Seq<char>,
) -> MetricView {
    |k: Seq<char>|
        process_row(f, None, k, with_key(samples, process_key(), k).len(), samples.len())
}

/// The metrics of some samples: by time and symbol, by symbol over the whole capture, by time and
/// process, and by process over the whole capture.
pub open spec fn sample_metrics(f: spec_fn(Op) -> Number, samples: Seq<SampleView>) -> Seq<
    MetricView,
> {
    chain(
        distinct_sorted::<(Moment, Spot)>(samples.map_values(timed_spot_of())).map_values(
            timed_spot_rows(f, samples),
        ),
    ) + chain(
        distinct_sorted::<Spot>(samples.map_values(spot_of())).map_values(
            whole_spot_rows(f, samples),
        ),
    ) + distinct_sorted::<(Moment, String)>(samples.map_values(timed_process_key())).map_values(
        timed_process_rows(f, samples),
    ) + distinct_sorted::<String>(samples.map_values(process_key())).map_values(
        whole_process_rows(f, samples),
    )
}

fn spot_from(sample: &Sample) -> (r: Spot)
    ensures
        <Spot as crate::order::Key>::model(&r) == spot_of()(sample@),
{
    match &sample.leaf {
        Some(leaf) => (sample.process.clone(), (leaf.binary.clone(), leaf.symbol.clone())),
        None => (sample.process.clone(), ("[unknown]".to_owned(), "[unknown]".to_owned())),
    }
}

/// The number of samples of each bucket.
fn bucket_totals(samples: &Vec<Sample>) -> (r: Vec<(Moment, usize)>)
    ensures
        forall|b: int|
            #![trigger samples_at(value_views(samples@), b)]
            samples_at(value_views(samples@), b) > 0 ==> exists|i: int|
                0 <= i < r@.len() && (#[trigger] r@[i]).0.nanos == b,
        forall|i: int|
            0 <= i < r@.len() ==> (#[trigger] r@[i]).1 == samples_at(
                value_views(samples@),
                r@[i].0.nanos as int,
            ),
{
    let ghost all = value_views(samples@);
    let mut keys: Vec<Moment> = Vec::new();
    let mut i: usize = 0;
    while i < samples.len()
        invariant
            i <= samples@.len(),
            all == value_views(samples@),
            models(keys@) == all.take(i as int).map_values(bucket_key()),
        decreases samples.len() - i,
    {
        let ghost was = keys@;
        keys.push(samples[i].bucket);
        assert(models(keys@) == models(was).push(all[i as int].bucket));
        assert(all.take(i + 1).map_values(bucket_key()) == all.take(i as int).map_values(
            bucket_key(),
        ).push(all[i as int].bucket));
        i += 1;
    }
    assert(all.take(i as int) == all);
    let groups = grouped(samples.as_slice(), &keys, Ghost(bucket_key()));
    let ghost names = distinct_sorted::<Moment>(all.map_values(bucket_key()));
    let mut out: Vec<(Moment, usize)> = Vec::new();
    let mut g: usize = 0;
    while g < groups.len()
        invariant
            g <= groups@.len(),
            groups@.len() == names.len(),
            forall|h: int|
                0 <= h < groups@.len() ==> ref_views((#[trigger] groups@[h])@) == with_key(
                    all,
                    bucket_key(),
                    names[h],
                ) && groups@[h]@.len() > 0,
            out@.len() == g,
            forall|h: int| 0 <= h < g ==> (#[trigger] out@[h]).0.nanos == names[h],
            forall|h: int|
                0 <= h < g ==> (#[trigger] out@[h]).1 == samples_at(all, out@[h].0.nanos as int),
        decreases groups.len() - g,
    {
        let members = &groups[g];
        proof {
            with_key_holds(all, bucket_key(), names[g as int], 0);
            assert(ref_views(members@)[0] == members@[0]@);
            assert(ref_views(members@).len() == members@.len());
        }
        out.push((members[0].bucket, members.len()));
        g += 1;
    }
    proof {
        distinct_sorted_holds::<Moment>(all.map_values(bucket_key()));
        assert forall|b: int|
            #![trigger samples_at(all, b)]
            samples_at(all, b) > 0 implies exists|i: int|
            0 <= i < out@.len() && (#[trigger] out@[i]).0.nanos == b by {
            if !all.map_values(bucket_key()).contains(b) {
                with_key_absent(all, bucket_key(), b);
            }
            assert(names.contains(b));
            let h = choose|h: int| 0 <= h < names.len() && names[h] == b;
            assert(out@[h].0.nanos == b);
        }
    }
    out
}

fn total_at(totals: &Vec<(Moment, usize)>, bucket: Moment, Ghost(samples): Ghost<
    Seq<SampleView>,
>) -> (r: usize)
    requires
        samples_at(samples, bucket.nanos as int) > 0,
        forall|b: int|
            #![trigger samples_at(samples, b)]
            samples_at(samples, b) > 0 ==> exists|i: int|
                0 <= i < totals@.len() && (#[trigger] totals@[i]).0.nanos == b,
        forall|i: int|
            0 <= i < totals@.len() ==> (#[trigger] totals@[i]).1 == samples_at(
                samples,
                totals@[i].0.nanos as int,
            ),
    ensures
        r == samples_at(samples, bucket.nanos as int),
{
    let mut i: usize = 0;
    while i < totals.len()
        invariant
            i <= totals@.len(),
            forall|j: int| 0 <= j < i ==> (#[trigger] totals@[j]).0.nanos != bucket.nanos,
            forall|j: int|
                0 <= j < totals@.len() ==> (#[trigger] totals@[j]).1 == samples_at(
                    samples,
                    totals@[j].0.nanos as int,
                ),
        decreases totals.len() - i,
    {
        if totals[i].0.nanos == bucket.nanos {
            return totals[i].1;
        }
        i += 1;
    }
    assert(false);
    0
}

fn add_spot<F: Fn(Op) -> Number>(
    out: &mut Vec<Metric>,
    at: Option<Moment>,
    spot: &Spot,
    count: usize,
    total: usize,
    compute: &F,
)
    requires
        is_arithmetic(*compute),
    ensures
        value_views(final(out)@) == value_views(old(out)@) + spot_rows(
            arithmetic(*compute),
            at,
            (spot.0@, (spot.1.0@, spot.1.1@)),
            count as nat,
            total as nat,
        ),
{
    let ghost before = value_views(out@);
    let labels = labels3(
        "process",
        spot.0.as_str(),
        "binary",
        spot.1.0.as_str(),
        "symbol",
        spot.1.1.as_str(),
    );
    let counted = apply(compute, Op::Integer(count as i64));
    add_metric(out, "cpu.sample_count", counted, "samples", at, &labels);
    add_metric(
        out,
        "cpu.sample_percent",
        share(count, total, compute),
        "percent",
        at,
        &labels,
    );
    assert(value_views(out@) == before + spot_rows(
        arithmetic(*compute),
        at,
        (spot.0@, (spot.1.0@, spot.1.1@)),
        count as nat,
        total as nat,
    ));
}

/// A sample counts in its bucket.
proof fn counted_in_its_bucket(samples: Seq<SampleView>, i: int)
    requires
        0 <= i < samples.len(),
    ensures
        samples_at(samples, samples[i].bucket) > 0,
{
    crate::join::with_key_contains(samples, bucket_key(), i);
}

fn add_timed_spots<F: Fn(Op) -> Number>(
    out: &mut Vec<Metric>,
    samples: &Vec<Sample>,
    totals: &Vec<(Moment, usize)>,
    compute: &F,
)
    requires
        is_arithmetic(*compute),
        forall|b: int|
            #![trigger samples_at(value_views(samples@), b)]
            samples_at(value_views(samples@), b) > 0 ==> exists|i: int|
                0 <= i < totals@.len() && (#[trigger] totals@[i]).0.nanos == b,
        forall|i: int|
            0 <= i < totals@.len() ==> (#[trigger] totals@[i]).1 == samples_at(
                value_views(samples@),
                totals@[i].0.nanos as int,
            ),
    ensures
        value_views(final(out)@) == value_views(old(out)@) + chain(
            distinct_sorted::<(Moment, Spot)>(
                value_views(samples@).map_values(timed_spot_of()),
            ).map_values(timed_spot_rows(arithmetic(*compute), value_views(samples@))),
        ),
{
    let ghost f = arithmetic(*compute);
    let ghost all = value_views(samples@);
    let ghost before = value_views(out@);
    let mut keys: Vec<(Moment, Spot)> = Vec::new();
    let mut i: usize = 0;
    while i < samples.len()
        invariant
            i <= samples@.len(),
            all == value_views(samples@),
            models(keys@) == all.take(i as int).map_values(timed_spot_of()),
        decreases samples.len() - i,
    {
        let ghost was = keys@;
        keys.push((samples[i].bucket, spot_from(&samples[i])));
        assert(models(keys@) == models(was).push(timed_spot_of()(all[i as int])));
        assert(all.take(i + 1).map_values(timed_spot_of()) == all.take(i as int).map_values(
            timed_spot_of(),
        ).push(timed_spot_of()(all[i as int])));
        i += 1;
    }
    assert(all.take(i as int) == all);
    let groups = grouped(samples.as_slice(), &keys, Ghost(timed_spot_of()));
    let ghost names = distinct_sorted::<(Moment, Spot)>(all.map_values(timed_spot_of()));
    let ghost each = timed_spot_rows(f, all);
    let mut g: usize = 0;
    assert(before + chain(names.take(0).map_values(each)) == before);
    while g < groups.len()
        invariant
            is_arithmetic(*compute),
            f == arithmetic(*compute),
            all == value_views(samples@),
            g <= groups@.len(),
            each == timed_spot_rows(f, all),
            groups@.len() == names.len(),
            forall|h: int|
                0 <= h < groups@.len() ==> ref_views((#[trigger] groups@[h])@) == with_key(
                    all,
                    timed_spot_of(),
                    names[h],
                ) && groups@[h]@.len() > 0,
            forall|b: int|
                #![trigger samples_at(all, b)]
                samples_at(all, b) > 0 ==> exists|i: int|
                    0 <= i < totals@.len() && (#[trigger] totals@[i]).0.nanos == b,
            forall|i: int|
                0 <= i < totals@.len() ==> (#[trigger] totals@[i]).1 == samples_at(
                    all,
                    totals@[i].0.nanos as int,
                ),
            value_views(out@) == before + chain(names.take(g as int).map_values(each)),
        decreases groups.len() - g,
    {
        let members = &groups[g];
        let first = members[0];
        let ghost k = names[g as int];
        proof {
            with_key_holds(all, timed_spot_of(), k, 0);
            assert(ref_views(members@)[0] == members@[0]@);
            assert(ref_views(members@).len() == members@.len());
            let x = choose|x: int| 0 <= x < all.len() && all[x] == first@;
            counted_in_its_bucket(all, x);
        }
        let total: usize = total_at(totals, first.bucket, Ghost(all));
        let spot = spot_from(first);
        add_spot(out, Some(first.bucket), &spot, members.len(), total, compute);
        proof {
            let next = names.take(g + 1).map_values(each);
            assert(next.drop_last() == names.take(g as int).map_values(each));
            assert(next.last() == each(k));
            assert(moment(k.0) == first.bucket);
            assert(before + (chain(next.drop_last()) + next.last()) == before + chain(
                next.drop_last(),
            ) + next.last());
        }
        g += 1;
    }
    assert(names.take(g as int) == names);
}

fn add_whole_spots<F: Fn(Op) -> Number>(
    out: &mut Vec<Metric>,
    samples: &Vec<Sample>,
    compute: &F,
)
    requires
        is_arithmetic(*compute),
    ensures
        value_views(final(out)@) == value_views(old(out)@) + chain(
            distinct_sorted::<Spot>(value_views(samples@).map_values(spot_of())).map_values(
                whole_spot_rows(arithmetic(*compute), value_views(samples@)),
            ),
        ),
{
    let ghost f = arithmetic(*compute);
    let ghost all = value_views(samples@);
    let ghost before = value_views(out@);
    let mut keys: Vec<Spot> = Vec::new();
    let mut i: usize = 0;
    while i < samples.len()
        invariant
            i <= samples@.len(),
            all == value_views(samples@),
            models(keys@) == all.take(i as int).map_values(spot_of()),
        decreases samples.len() - i,
    {
        let ghost was = keys@;
        keys.push(spot_from(&samples[i]));
        assert(models(keys@) == models(was).push(spot_of()(all[i as int])));
        assert(all.take(i + 1).map_values(spot_of()) == all.take(i as int).map_values(
            spot_of(),
        ).push(spot_of()(all[i as int])));
        i += 1;
    }
    assert(all.take(i as int) == all);
    let groups = grouped(samples.as_slice(), &keys, Ghost(spot_of()));
    let ghost names = distinct_sorted::<Spot>(all.map_values(spot_of()));
    let ghost each = whole_spot_rows(f, all);
    let mut g: usize = 0;
    assert(before + chain(names.take(0).map_values(each)) == before);
    while g < groups.len()
        invariant
            is_arithmetic(*compute),
            f == arithmetic(*compute),
            all == value_views(samples@),
            g <= groups@.len(),
            each == whole_spot_rows(f, all),
            groups@.len() == names.len(),
            forall|h: int|
                0 <= h < groups@.len() ==> ref_views((#[trigger] groups@[h])@) == with_key(
                    all,
                    spot_of(),
                    names[h],
                ) && groups@[h]@.len() > 0,
            value_views(out@) == before + chain(names.take(g as int).map_values(each)),
        decreases groups.len() - g,
    {
        let members = &groups[g];
        let first = members[0];
        let ghost k = names[g as int];
        proof {
            with_key_holds(all, spot_of(), k, 0);
            assert(ref_views(members@)[0] == members@[0]@);
            assert(ref_views(members@).len() == members@.len());
        }
        let spot = spot_from(first);
        add_spot(out, None, &spot, members.len(), samples.len(), compute);
        proof {
            let next = names.take(g + 1).map_values(each);
            assert(next.drop_last() == names.take(g as int).map_values(each));
            assert(next.last() == each(k));
            assert(before + (chain(next.drop_last()) + next.last()) == before + chain(
                next.drop_last(),
            ) + next.last());
        }
        g += 1;
    }
    assert(names.take(g as int) == names);
}

fn add_process<F: Fn(Op) -> Number>(
    out: &mut Vec<Metric>,
    at: Option<Moment>,
    process: &str,
    count: usize,
    total: usize,
    compute: &F,
)
    requires
        is_arithmetic(*compute),
    ensures
        value_views(final(out)@) == value_views(old(out)@).push(
            process_row(arithmetic(*compute), at, process@, count as nat, total as nat),
        ),
{
    let labels = labels1("process", process);
    add_metric(
        out,
        "cpu.process_percent",
        share(count, total, compute),
        "percent",
        at,
        &labels,
    );
}

fn add_timed_processes<F: Fn(Op) -> Number>(
    out: &mut Vec<Metric>,
    samples: &Vec<Sample>,
    totals: &Vec<(Moment, usize)>,
    compute: &F,
)
    requires
        is_arithmetic(*compute),
        forall|b: int|
            #![trigger samples_at(value_views(samples@), b)]
            samples_at(value_views(samples@), b) > 0 ==> exists|i: int|
                0 <= i < totals@.len() && (#[trigger] totals@[i]).0.nanos == b,
        forall|i: int|
            0 <= i < totals@.len() ==> (#[trigger] totals@[i]).1 == samples_at(
                value_views(samples@),
                totals@[i].0.nanos as int,
            ),
    ensures
        value_views(final(out)@) == value_views(old(out)@) + distinct_sorted::<(Moment, String)>(
            value_views(samples@).map_values(timed_process_key()),
        ).map_values(timed_process_rows(arithmetic(*compute), value_views(samples@))),
{
    let ghost f = arithmetic(*compute);
    let ghost all = value_views(samples@);
    let ghost before = value_views(out@);
    let mut keys: Vec<(Moment, String)> = Vec::new();
    let mut i: usize = 0;
    while i < samples.len()
        invariant
            i <= samples@.len(),
            all == value_views(samples@),
            models(keys@) == all.take(i as int).map_values(timed_process_key()),
        decreases samples.len() - i,
    {
        let ghost was = keys@;
        keys.push((samples[i].bucket, samples[i].process.clone()));
        assert(models(keys@) == models(was).push(timed_process_key()(all[i as int])));
        assert(all.take(i + 1).map_values(timed_process_key()) == all.take(i as int).map_values(
            timed_process_key(),
        ).push(timed_process_key()(all[i as int])));
        i += 1;
    }
    assert(all.take(i as int) == all);
    let groups = grouped(samples.as_slice(), &keys, Ghost(timed_process_key()));
    let ghost names = distinct_sorted::<(Moment, String)>(all.map_values(timed_process_key()));
    let ghost each = timed_process_rows(f, all);
    let mut g: usize = 0;
    assert(before + names.take(0).map_values(each) == before);
    while g < groups.len()
        invariant
            is_arithmetic(*compute),
            f == arithmetic(*compute),
            all == value_views(samples@),
            g <= groups@.len(),
            each == timed_process_rows(f, all),
            groups@.len() == names.len(),
            forall|h: int|
                0 <= h < groups@.len() ==> ref_views((#[trigger] groups@[h])@) == with_key(
                    all,
                    timed_process_key(),
                    names[h],
                ) && groups@[h]@.len() > 0,
            forall|b: int|
                #![trigger samples_at(all, b)]
                samples_at(all, b) > 0 ==> exists|i: int|
                    0 <= i < totals@.len() && (#[trigger] totals@[i]).0.nanos == b,
            forall|i: int|
                0 <= i < totals@.len() ==> (#[trigger] totals@[i]).1 == samples_at(
                    all,
                    totals@[i].0.nanos as int,
                ),
            value_views(out@) == before + names.take(g as int).map_values(each),
        decreases groups.len() - g,
    {
        let members = &groups[g];
        let first = members[0];
        let ghost k = names[g as int];
        proof {
            with_key_holds(all, timed_process_key(), k, 0);
            assert(ref_views(members@)[0] == members@[0]@);
            assert(ref_views(members@).len() == members@.len());
            let x = choose|x: int| 0 <= x < all.len() && all[x] == first@;
            counted_in_its_bucket(all, x);
        }
        let total: usize = total_at(totals, first.bucket, Ghost(all));
        add_process(
            out,
            Some(first.bucket),
            first.process.as_str(),
            members.len(),
            total,
            compute,
        );
        proof {
            assert(moment(k.0) == first.bucket);
            assert(before + names.take(g + 1).map_values(each) == (before + names.take(
                g as int,
            ).map_values(each)).push(each(k)));
        }
        g += 1;
    }
    assert(names.take(g as int) == names);
}

fn add_whole_processes<F: Fn(Op) -> Number>(
    out: &mut Vec<Metric>,
    samples: &Vec<Sample>,
    compute: &F,
)
    requires
        is_arithmetic(*compute),
    ensures
        value_views(final(out)@) == value_views(old(out)@) + distinct_sorted::<String>(
            value_views(samples@).map_values(process_key()),
        ).map_values(whole_process_rows(arithmetic(*compute), value_views(samples@))),
{
    let ghost f = arithmetic(*compute);
    let ghost all = value_views(samples@);
    let ghost before = value_views(out@);
    let mut keys: Vec<String> = Vec::new();
    let mut i: usize = 0;
    while i < samples.len()
        invariant
            i <= samples@.len(),
            all == value_views(samples@),
            models(keys@) == all.take(i as int).map_values(process_key()),
        decreases samples.len() - i,
    {
        let ghost was = keys@;
        keys.push(samples[i].process.clone());
        assert(models(keys@) == models(was).push(process_key()(all[i as int])));
        assert(all.take(i + 1).map_values(process_key()) == all.take(i as int).map_values(
            process_key(),
        ).push(process_key()(all[i as int])));
        i += 1;
    }
    assert(all.take(i as int) == all);
    let groups = grouped(samples.as_slice(), &keys, Ghost(process_key()));
    let ghost names = distinct_sorted::<String>(all.map_values(process_key()));
    let ghost each = whole_process_rows(f, all);
    let mut g: usize = 0;
    assert(before + names.take(0).map_values(each) == before);
    while g < groups.len()
        invariant
            is_arithmetic(*compute),
            f == arithmetic(*compute),
            all == value_views(samples@),
            g <= groups@.len(),
            each == whole_process_rows(f, all),
            groups@.len() == names.len(),
            forall|h: int|
                0 <= h < groups@.len() ==> ref_views((#[trigger] groups@[h])@) == with_key(
                    all,
                    process_key(),
                    names[h],
                ) && groups@[h]@.len() > 0,
            value_views(out@) == before + names.take(g as int).map_values(each),
        decreases groups.len() - g,
    {
        let members = &groups[g];
        let first = members[0];
        let ghost k = names[g as int];
        proof {
            with_key_holds(all, process_key(), k, 0);
            assert(ref_views(members@)[0] == members@[0]@);
            assert(ref_views(members@).len() == members@.len());
        }
        add_process(out, None, first.process.as_str(), members.len(), samples.len(), compute);
        assert(before + names.take(g + 1).map_values(each) == (before + names.take(
            g as int,
        ).map_values(each)).push(each(k)));
        g += 1;
    }
    assert(names.take(g as int) == names);
}

/// Counts the samples.
pub fn count_samples<F: Fn(Op) -> Number>(samples: &Vec<Sample>, compute: &F) -> (r: Vec<Metric>)
    requires
        is_arithmetic(*compute),
    ensures
        value_views(r@) == sample_metrics(arithmetic(*compute), value_views(samples@)),
{
    let totals = bucket_totals(samples);
    let mut out: Vec<Metric> = Vec::new();
    assert(value_views(out@) == Seq::<MetricView>::empty());
    add_timed_spots(&mut out, samples, &totals, compute);
    add_whole_spots(&mut out, samples, compute);
    add_timed_processes(&mut out, samples, &totals, compute);
    add_whole_processes(&mut out, samples, compute);
    assert(value_views(out@) == sample_metrics(arithmetic(*compute), value_views(samples@)));
    out
}

/// What an output of `perf script` comes to.
pub open spec fn perf_metrics(
    f: spec_fn(Op) -> Number,
    number: spec_fn(Seq<char>) -> Option<Number>,
    grid: BucketGrid,
    raw: Seq<char>,
) -> Result<Seq<MetricView>, PerfError> {
    match clock_of(f, number, lines(raw)) {
        None => Err(PerfError::NoStart),
        Some(clock) => match samples_of(f, clock, grid, lines_in(number, raw)) {
            Err(error) => Err(error),
            Ok(samples) => Ok(sample_metrics(f, samples)),
        },
    }
}

/// Reads the output of `perf script` into metrics. The samples are counted in the buckets of the
/// benchmark.
pub fn parse_perf_script<F: Fn(Op) -> Number, R: Fn(&str) -> Option<Number>>(
    raw: &str,
    grid: BucketGrid,
    compute: &F,
    read: &R,
) -> (r: Result<Vec<Metric>, PerfError>)
    requires
        is_arithmetic(*compute),
        is_reader(*read),
        on_calendar(grid.origin),
        on_calendar(grid.begin),
    ensures
        ({
            let found = perf_metrics(arithmetic(*compute), reading(*read), grid, raw@);
            match r {
                Ok(metrics) => found == Ok::<_, PerfError>(value_views(metrics@)),
                Err(error) => found == Err::<Seq<MetricView>, _>(error),
            }
        }),
{
    let log = lines_of(chars_of(raw).as_slice());
    let clock = match clock_from(&log, compute, read) {
        Some(clock) => clock,
        None => {
            return Err(PerfError::NoStart);
        },
    };
    let ghost number = reading(*read);
    let ghost all = lines(raw@);
    let ghost each = |l: Seq<char>| line_of(number, l);
    let mut content: Vec<PerfLine> = Vec::new();
    let hash = chars_of("#");
    let mut i: usize = 0;
    proof {
        reveal(Seq::filter);
        assert(all.take(0) == Seq::<Seq<char>>::empty());
        assert(value_views(content@) == all.take(0).filter(is_content()).map_values(each));
    }
    while i < log.len()
        invariant
            is_reader(*read),
            number == reading(*read),
            i <= log@.len(),
            hash@ == "#"@,
            all == views(log@),
            each == (|l: Seq<char>| line_of(number, l)),
            value_views(content@) == all.take(i as int).filter(is_content()).map_values(each),
        decreases log.len() - i,
    {
        proof {
            reveal(Seq::filter);
            assert(all.take(i + 1).drop_last() == all.take(i as int));
            assert(all.take(i + 1).last() == log@[i as int]@);
        }
        if !starts_with(log[i].as_slice(), hash.as_slice()) && trimmed(log[i].as_slice()).len()
            > 0 {
            let line = line_from(&log[i], read);
            let ghost was = content@;
            content.push(line);
            proof {
                assert(value_views(content@) == value_views(was).push(line@));
                let kept = all.take(i as int).filter(is_content());
                assert(kept.push(log@[i as int]@).map_values(each) == kept.map_values(each).push(
                    line@,
                ));
            }
        }
        i += 1;
    }
    assert(all.take(i as int) == all);
    assert(value_views(content@) == lines_in(number, raw@));
    match gather(content, clock, grid, compute) {
        Ok(samples) => Ok(count_samples(&samples, compute)),
        Err(error) => Err(error),
    }
}

/// Every sample is counted under its time and symbol, and under its process.
pub proof fn every_sample_is_counted(samples: Seq<SampleView>, i: int)
    requires
        0 <= i < samples.len(),
    ensures
        distinct_sorted::<(Moment, Spot)>(samples.map_values(timed_spot_of())).contains(
            timed_spot_of()(samples[i]),
        ),
        distinct_sorted::<String>(samples.map_values(process_key())).contains(samples[i].process),
        samples_at(samples, samples[i].bucket) > 0,
{
    let spots = samples.map_values(timed_spot_of());
    let processes = samples.map_values(process_key());
    distinct_sorted_holds::<(Moment, Spot)>(spots);
    distinct_sorted_holds::<String>(processes);
    assert(spots[i] == timed_spot_of()(samples[i]));
    assert(processes[i] == samples[i].process);
    assert(spots.contains(spots[i]) && processes.contains(processes[i]));
    counted_in_its_bucket(samples, i);
}

/// A sample without a frame counts for its process all the same.
pub proof fn frames_do_not_change_the_count(
    f: spec_fn(Op) -> Number,
    clock: PerfClock,
    grid: BucketGrid,
    before: Scan,
    leaf: Option<LeafView>,
)
    ensures
        ({
            let after = scan_line(f, clock, grid, before, PerfLineView::Frame(leaf));
            &&& after.fault == before.fault
            &&& after.done == before.done
            &&& settled(after.done, after.pending).len() == settled(
                before.done,
                before.pending,
            ).len()
        }),
{
}

} // verus!
