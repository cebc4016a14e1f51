//! Statements that a MySQL server logged as slow.
use crate::bytes::{byte_lines, byte_lines_of, byte_views};
use crate::clock::{nanos_option, parse_rfc3339, rfc3339_nanos};
use crate::join::{chain, grouped, ref_views, value_views, with_key, with_key_holds};
use crate::labels::{labels2, no_labels, with_label, Pair};
use crate::model::{add_metric, Metric, MetricView};
use crate::moment::{bucket_of_epoch, epoch_bucket, Moment};
use crate::number::{
    apply, arithmetic, count_value, is_arithmetic, sum_from, total_from, Number, Op,
};
use crate::numeral::{is_reader, read_number, reading};
use crate::order::{distinct_sorted, models, stable_sorted};
use crate::rounding::{percentile, percentile_of};
use crate::sql_shape::{lowercase, lowercase_of};
use crate::text::{
    alnum, append, byte_length, chars_of, digit, fit, fitting, is_alnum, is_digit, is_space, join,
    joined, lossy_text, same_chars, slice_of, space, starts, starts_with, string_of, strip_ends,
    strip_prefix, stripped_ends, stripped_prefix, text_from_lossy, trim, trim_start, trimmed,
    trimmed_start, views, words, words_of,
};
use crate::transition::{own_place, sorted_numbers, NEARLY_ALL};
use vstd::prelude::*;

verus! {

/// The position after the text in quotes that begins before `i` and ends with `quote`; a backslash
/// takes the meaning from the character after it.
pub open spec fn after_quote(s: Seq<char>, i: int, quote: char) -> int
    decreases s.len() - i,
{
    if i >= s.len() {
        s.len() as int
    } else if s[i] == '\\' {
        if i + 1 >= s.len() {
            s.len() as int
        } else {
            after_quote(s, i + 2, quote)
        }
    } else if s[i] == quote {
        i + 1
    } else {
        after_quote(s, i + 1, quote)
    }
}

/// The position after the letters, digits and points from `i` on.
pub open spec fn after_number(s: Seq<char>, i: int) -> int
    decreases s.len() - i,
{
    if 0 <= i < s.len() && (is_alnum(s[i]) || s[i] == '.') {
        after_number(s, i + 1)
    } else {
        i
    }
}

/// A digit after one of these belongs to a name.
pub open spec fn ends_in_name(s: Seq<char>) -> bool {
    s.len() > 0 && (is_alnum(s.last()) || s.last() == '_' || s.last() == '$')
}

/// What a digest holds after the white space before the next character.
pub open spec fn spaced(out: Seq<char>, pending: bool) -> Seq<char> {
    if pending && !(out.len() > 0 && (out.last() == '(' || out.last() == ',')) {
        out.push(' ')
    } else {
        out
    }
}

/// What becomes of the character at `i`, which is not white space: where to go on, and the digest
/// up to there. A value in quotes and a number become a placeholder.
pub open spec fn digest_step(s: Seq<char>, i: int, out: Seq<char>) -> (int, Seq<char>) {
    let c = s[i];
    if c == '\'' || c == '"' {
        (after_quote(s, i + 1, c), out.push('?'))
    } else if is_digit(c) && !ends_in_name(out) {
        (after_number(s, i + 1), out.push('?'))
    } else {
        (i + 1, out + lowercase_of(c))
    }
}

pub proof fn steps_advance(s: Seq<char>, i: int, quote: char)
    requires
        0 <= i <= s.len(),
    ensures
        i <= after_quote(s, i, quote) <= s.len(),
        i <= after_number(s, i) <= s.len(),
    decreases s.len() - i,
{
    if i < s.len() {
        steps_advance(s, i + 1, quote);
        if i + 1 < s.len() {
            steps_advance(s, i + 2, quote);
        }
    }
}

/// The first five hundred and twelve bytes of a text, where no character crosses that border.
pub open spec fn cut(s: Seq<char>) -> Option<Seq<char>> {
    let n = fitting(s, 512) as int;
    if byte_length(s.take(n)) == 512 {
        Some(s.take(n))
    } else {
        None
    }
}

/// The digest of `s` from `i` on, after `out`: it ends with the first five hundred and twelve
/// bytes. None where a character crosses that border.
pub open spec fn digest_from(s: Seq<char>, i: int, out: Seq<char>, pending: bool) -> Option<
    Seq<char>,
>
    decreases s.len() - i,
    when 0 <= i <= s.len()
{
    if i >= s.len() {
        Some(out)
    } else if is_space(s[i]) {
        digest_from(s, i + 1, out, out.len() > 0)
    } else {
        let (next, grown) = digest_step(s, i, spaced(out, pending));
        proof {
            steps_advance(s, i + 1, s[i]);
        }
        if byte_length(grown) >= 512 {
            cut(grown)
        } else {
            digest_from(s, next, grown, false)
        }
    }
}

/// A statement without its values, in lower case and with single spaces. None where a character
/// crosses the border of five hundred and twelve bytes.
pub open spec fn digest_of(query: Seq<char>) -> Option<Seq<char>> {
    match digest_from(query, 0, Seq::empty(), false) {
        Some(out) => Some(trim(strip_ends(trim(out), ";"@))),
        None => None,
    }
}

fn skip_quote(s: &[char], from: usize, quote: char) -> (r: usize)
    requires
        from <= s@.len(),
    ensures
        r == after_quote(s@, from as int, quote),
        from <= r <= s@.len(),
{
    let mut i: usize = from;
    let n: usize = s.len();
    while i < n
        invariant
            from <= i <= n,
            n == s@.len(),
            after_quote(s@, from as int, quote) == after_quote(s@, i as int, quote),
        decreases n - i,
    {
        if s[i] == '\\' {
            if n - i < 2 {
                return n;
            }
            i += 2;
        } else if s[i] == quote {
            return i + 1;
        } else {
            i += 1;
        }
    }
    n
}

fn skip_number(s: &[char], from: usize) -> (r: usize)
    requires
        from <= s@.len(),
    ensures
        r == after_number(s@, from as int),
        from <= r <= s@.len(),
{
    let mut i: usize = from;
    while i < s.len() && (alnum(s[i]) || s[i] == '.')
        invariant
            from <= i <= s@.len(),
            after_number(s@, from as int) == after_number(s@, i as int),
        decreases s.len() - i,
    {
        i += 1;
    }
    i
}

/// A character crosses the border at which a digest is cut.
#[derive(Clone, Copy, Debug, PartialEq, Eq, Structural)]
pub struct CutInsideCharacter;

/// Writes a statement without its values.
pub fn normalize_sql_digest(query: &[char]) -> (r: Result<Vec<char>, CutInsideCharacter>)
    ensures
        match r {
            Ok(digest) => digest_of(query@) == Some(digest@),
            Err(_) => digest_of(query@) is None,
        },
{
    let mut out: Vec<char> = Vec::new();
    let mut pending = false;
    let mut i: usize = 0;
    assert(out@ == Seq::<char>::empty());
    while i < query.len()
        invariant_except_break
            digest_from(query@, 0, Seq::empty(), false) == digest_from(
                query@,
                i as int,
                out@,
                pending,
            ),
        invariant
            i <= query@.len(),
        ensures
            digest_from(query@, 0, Seq::empty(), false) == Some(out@),
        decreases query.len() - i,
    {
        let c = query[i];
        if space(c) {
            pending = out.len() > 0;
            i += 1;
            continue;
        }
        let n: usize = out.len();
        if pending && !(n > 0 && (out[n - 1] == '(' || out[n - 1] == ',')) {
            out.push(' ');
        }
        pending = false;
        let n: usize = out.len();
        let ghost base = out@;
        let next: usize;
        if c == '\'' || c == '"' {
            next = skip_quote(query, i + 1, c);
            out.push('?');
        } else if digit(c) && !(n > 0 && (alnum(out[n - 1]) || out[n - 1] == '_' || out[n - 1]
            == '$')) {
            next = skip_number(query, i + 1);
            out.push('?');
        } else {
            next = i + 1;
            let lower = lowercase(c);
            append(&mut out, lower.as_slice());
        }
        assert((next as int, out@) == digest_step(query@, i as int, base));
        if fit(out.as_slice(), 511) < out.len() {
            let kept: usize = fit(out.as_slice(), 512);
            let head = slice_of(out.as_slice(), 0, kept);
            assert(head@ == out@.take(kept as int));
            if fit(head.as_slice(), 511) < head.len() {
                proof {
                    fitting_fits(out@, 512);
                    assert(byte_length(head@) == 512);
                }
                out = head;
                break;
            }
            proof {
                fitting_fits(out@, 512);
            }
            return Err(CutInsideCharacter);
        }
        i = next;
    }
    let short = trimmed(out.as_slice());
    let bare = stripped_ends(short.as_slice(), chars_of(";").as_slice());
    Ok(trimmed(bare.as_slice()))
}

/// What fits, fits.
pub proof fn fitting_fits(s: Seq<char>, limit: nat)
    ensures
        fitting(s, limit) <= s.len(),
        byte_length(s.take(fitting(s, limit) as int)) <= limit,
    decreases s.len(),
{
    if byte_length(s) <= limit || s.len() == 0 {
        assert(s.take(s.len() as int) == s);
    } else {
        fitting_fits(s.drop_last(), limit);
        let n = fitting(s.drop_last(), limit) as int;
        assert(s.drop_last().take(n) == s.take(n));
    }
}

/// What was logged between two lines with a time.
#[derive(Debug)]
pub struct Entry {
    pub at: Option<Moment>,
    pub duration: Option<Number>,
    pub lock: Number,
    pub sent: Number,
    pub examined: Number,
    pub query: Vec<Vec<char>>,
}

#[verifier::ext_equal]
pub struct EntryView {
    pub at: Option<int>,
    pub duration: Option<Number>,
    pub lock: Number,
    pub sent: Number,
    pub examined: Number,
    pub query: Seq<Seq<char>>,
}

impl View for Entry {
    type V = EntryView;

    open spec fn view(&self) -> EntryView {
        EntryView {
            at: nanos_option(self.at),
            duration: self.duration,
            lock: self.lock,
            sent: self.sent,
            examined: self.examined,
            query: views(self.query@),
        }
    }
}

pub open spec fn blank_entry(at: Option<int>) -> EntryView {
    EntryView {
        at,
        duration: None,
        lock: Number::zero_spec(),
        sent: Number::zero_spec(),
        examined: Number::zero_spec(),
        query: Seq::empty(),
    }
}

fn new_entry(at: Option<Moment>) -> (r: Entry)
    ensures
        r@ == blank_entry(nanos_option(at)),
        r.at == at,
{
    let r = Entry {
        at,
        duration: None,
        lock: Number::zero(),
        sent: Number::zero(),
        examined: Number::zero(),
        query: Vec::new(),
    };
    assert(views(r.query@) == Seq::<Seq<char>>::empty());
    r
}

pub open spec fn in_ms(f: spec_fn(Op) -> Number, seconds: Number) -> Number {
    f(Op::Multiply(seconds, f(Op::Integer(1000))))
}

pub fn milliseconds<F: Fn(Op) -> Number>(seconds: Number, compute: &F) -> (r: Number)
    requires
        is_arithmetic(*compute),
    ensures
        r == in_ms(arithmetic(*compute), seconds),
{
    let thousand = apply(compute, Op::Integer(1000));
    apply(compute, Op::Multiply(seconds, thousand))
}

pub open spec fn number_or_zero(
    number: spec_fn(Seq<char>) -> Option<Number>,
    text: Seq<char>,
) -> Number {
    match number(text) {
        Some(n) => n,
        None => Number::zero_spec(),
    }
}

/// Takes one field of a line of measurements, with the name before it.
pub open spec fn take_field(
    f: spec_fn(Op) -> Number,
    number: spec_fn(Seq<char>) -> Option<Number>,
    entry: EntryView,
    name: Seq<char>,
    value: Seq<char>,
) -> EntryView {
    if name == "Lock_time:"@ {
        EntryView { lock: in_ms(f, number_or_zero(number, value)), ..entry }
    } else if name == "Rows_sent:"@ {
        EntryView { sent: number_or_zero(number, value), ..entry }
    } else if name == "Rows_examined:"@ {
        EntryView { examined: number_or_zero(number, value), ..entry }
    } else {
        entry
    }
}

/// Takes the fields of a line of measurements from the second on.
pub open spec fn take_fields(
    f: spec_fn(Op) -> Number,
    number: spec_fn(Seq<char>) -> Option<Number>,
    entry: EntryView,
    fields: Seq<Seq<char>>,
) -> EntryView
    decreases fields.len(),
{
    if fields.len() < 2 {
        entry
    } else {
        take_field(
            f,
            number,
            take_fields(f, number, entry, fields.drop_last()),
            fields[fields.len() - 2],
            fields.last(),
        )
    }
}

/// Takes a line of measurements, which begins with the duration in seconds.
pub open spec fn measured(
    f: spec_fn(Op) -> Number,
    number: spec_fn(Seq<char>) -> Option<Number>,
    entry: EntryView,
    fields: Seq<Seq<char>>,
) -> EntryView {
    let duration = if fields.len() > 0 {
        match number(fields[0]) {
            Some(seconds) => Some(in_ms(f, seconds)),
            None => None,
        }
    } else {
        None
    };
    take_fields(f, number, EntryView { duration, ..entry }, fields)
}

/// The entries that ended, and the one that is read.
pub open spec fn entries_in(
    f: spec_fn(Op) -> Number,
    number: spec_fn(Seq<char>) -> Option<Number>,
    log: Seq<Seq<char>>,
) -> (Seq<EntryView>, EntryView)
    decreases log.len(),
{
    if log.len() == 0 {
        (Seq::empty(), blank_entry(None))
    } else {
        let (done, entry) = entries_in(f, number, log.drop_last());
        let line = log.last();
        match strip_prefix(line, "# Time: "@) {
            Some(value) => (done.push(entry), blank_entry(rfc3339_nanos(trim(value)))),
            None => match strip_prefix(line, "# Query_time: "@) {
                Some(rest) => (done, measured(f, number, entry, words(rest))),
                None => if entry.duration is Some && !starts(line, "# User@Host:"@) {
                    (done, EntryView { query: entry.query.push(line), ..entry })
                } else {
                    (done, entry)
                },
            },
        }
    }
}

/// All entries of a log.
pub open spec fn log_entries(
    f: spec_fn(Op) -> Number,
    number: spec_fn(Seq<char>) -> Option<Number>,
    log: Seq<Seq<char>>,
) -> Seq<EntryView> {
    entries_in(f, number, log).0.push(entries_in(f, number, log).1)
}

fn take_measure<F: Fn(Op) -> Number, R: Fn(&str) -> Option<Number>>(
    entry: Entry,
    fields: &Vec<Vec<char>>,
    compute: &F,
    read: &R,
) -> (r: Entry)
    requires
        is_arithmetic(*compute),
        is_reader(*read),
    ensures
        r@ == measured(arithmetic(*compute), reading(*read), entry@, views(fields@)),
        r.at == entry.at,
{
    let ghost f = arithmetic(*compute);
    let ghost number = reading(*read);
    let ghost all = views(fields@);
    let duration: Option<Number> = if fields.len() > 0 {
        assert(all[0] == fields@[0]@);
        match read_number(read, fields[0].as_slice()) {
            Some(seconds) => Some(milliseconds(seconds, compute)),
            None => None,
        }
    } else {
        None
    };
    let mut lock = entry.lock;
    let mut sent = entry.sent;
    let mut examined = entry.examined;
    let ghost start = EntryView { duration, ..entry@ };
    let lock_name = chars_of("Lock_time:");
    let sent_name = chars_of("Rows_sent:");
    let examined_name = chars_of("Rows_examined:");
    let mut i: usize = 1;
    while i < fields.len()
        invariant
            is_arithmetic(*compute),
            is_reader(*read),
            f == arithmetic(*compute),
            number == reading(*read),
            1 <= i,
            i <= fields@.len() || i == 1,
            all == views(fields@),
            lock_name@ == "Lock_time:"@,
            sent_name@ == "Rows_sent:"@,
            examined_name@ == "Rows_examined:"@,
            fields@.len() > 0 ==> take_fields(f, number, start, all.take(i as int)) == (EntryView {
                lock,
                sent,
                examined,
                ..start
            }),
            fields@.len() == 0 ==> start == (EntryView { lock, sent, examined, ..start }),
        decreases fields.len() - i,
    {
        proof {
            let next = all.take(i + 1);
            assert(next.drop_last() == all.take(i as int));
            assert(next.last() == fields@[i as int]@);
            assert(next[next.len() - 2] == fields@[i - 1]@);
        }
        let name = fields[i - 1].as_slice();
        let value: Number = match read_number(read, fields[i].as_slice()) {
            Some(n) => n,
            None => Number::zero(),
        };
        if same_chars(name, lock_name.as_slice()) {
            lock = milliseconds(value, compute);
        } else if same_chars(name, sent_name.as_slice()) {
            sent = value;
        } else if same_chars(name, examined_name.as_slice()) {
            examined = value;
        }
        i += 1;
    }
    proof {
        if fields@.len() > 0 {
            assert(all.take(i as int) == all);
        }
    }
    Entry { at: entry.at, duration, lock, sent, examined, query: entry.query }
}

/// The points in time of the entries lie in the calendar.
pub open spec fn entries_dated(entries: Seq<Entry>) -> bool {
    forall|i: int| 0 <= i < entries.len() ==> crate::model::on_calendar((#[trigger] entries[i]).at)
}

/// Reads the entries of a log.
pub fn read_entries<F: Fn(Op) -> Number, R: Fn(&str) -> Option<Number>>(
    log: Vec<Vec<char>>,
    compute: &F,
    read: &R,
) -> (r: Vec<Entry>)
    requires
        is_arithmetic(*compute),
        is_reader(*read),
    ensures
        value_views(r@) == log_entries(arithmetic(*compute), reading(*read), views(log@)),
        entries_dated(r@),
{
    let ghost f = arithmetic(*compute);
    let ghost number = reading(*read);
    let ghost source = log@;
    let ghost all = views(source);
    let mut done: Vec<Entry> = Vec::new();
    let mut entry = new_entry(None);
    let time = chars_of("# Time: ");
    let measure = chars_of("# Query_time: ");
    let host = chars_of("# User@Host:");
    proof {
        assert(all.take(0) == Seq::<Seq<char>>::empty());
        assert(value_views(done@) == Seq::<EntryView>::empty());
    }
    for line in it: log
        invariant
            is_arithmetic(*compute),
            is_reader(*read),
            f == arithmetic(*compute),
            number == reading(*read),
            it.seq() == source,
            all == views(source),
            time@ == "# Time: "@,
            measure@ == "# Query_time: "@,
            host@ == "# User@Host:"@,
            entries_in(f, number, all.take(it.index() as int)) == (value_views(done@), entry@),
            entries_dated(done@),
            crate::model::on_calendar(entry.at),
    {
        proof {
            let next = all.take(it.index() + 1);
            assert(next.drop_last() == all.take(it.index() as int));
            assert(next.last() == line@);
        }
        match stripped_prefix(line.as_slice(), time.as_slice()) {
            Some(value) => {
                let text = string_of(trimmed(value.as_slice()).as_slice());
                let next = new_entry(parse_rfc3339(text.as_str()));
                let ghost was = done@;
                let ended = entry;
                done.push(ended);
                assert(value_views(done@) == value_views(was).push(ended@));
                entry = next;
            },
            None => match stripped_prefix(line.as_slice(), measure.as_slice()) {
                Some(rest) => {
                    let fields = words_of(rest.as_slice());
                    entry = take_measure(entry, &fields, compute, read);
                },
                None => {
                    if entry.duration.is_some() && !starts_with(
                        line.as_slice(),
                        host.as_slice(),
                    ) {
                        let ghost was = entry.query@;
                        let mut query = entry.query;
                        query.push(line);
                        assert(views(query@) == views(was).push(line@));
                        entry =
                        Entry {
                            at: entry.at,
                            duration: entry.duration,
                            lock: entry.lock,
                            sent: entry.sent,
                            examined: entry.examined,
                            query,
                        };
                    }
                },
            },
        }
    }
    assert(all.take(all.len() as int) == all);
    let ghost was = done@;
    done.push(entry);
    assert(value_views(done@) == value_views(was).push(entry@));
    done
}

/// A line that belongs to the statement itself.
pub open spec fn is_statement() -> spec_fn(Seq<char>) -> bool {
    |line: Seq<char>|
        {
            let text = trim_start(line);
            !starts(text, "SET timestamp="@) && !starts(text, "use "@) && !starts(
                text,
                "# administrator command:"@,
            )
        }
}

/// The statement of an entry on one line.
pub open spec fn statement_of(entry: EntryView) -> Seq<char> {
    join(entry.query.filter(is_statement()), " "@)
}

fn statement_from(entry: &Entry) -> (r: Vec<char>)
    ensures
        r@ == statement_of(entry@),
{
    let ghost all = views(entry.query@);
    let mut kept: Vec<Vec<char>> = Vec::new();
    let mut i: usize = 0;
    let set = chars_of("SET timestamp=");
    let select = chars_of("use ");
    let command = chars_of("# administrator command:");
    proof {
        reveal(Seq::filter);
        assert(all.take(0) == Seq::<Seq<char>>::empty());
        assert(views(kept@) == all.take(0).filter(is_statement()));
    }
    while i < entry.query.len()
        invariant
            i <= entry.query@.len(),
            all == views(entry.query@),
            set@ == "SET timestamp="@,
            select@ == "use "@,
            command@ == "# administrator command:"@,
            views(kept@) == all.take(i as int).filter(is_statement()),
        decreases entry.query.len() - i,
    {
        proof {
            reveal(Seq::filter);
            assert(all.take(i + 1).drop_last() == all.take(i as int));
            assert(all.take(i + 1).last() == entry.query@[i as int]@);
        }
        let line = entry.query[i].as_slice();
        let text = trimmed_start(line);
        if !starts_with(text.as_slice(), set.as_slice()) && !starts_with(
            text.as_slice(),
            select.as_slice(),
        ) && !starts_with(text.as_slice(), command.as_slice()) {
            let copy = slice_of(line, 0, line.len());
            assert(copy@ == line@);
            let ghost was = kept@;
            kept.push(copy);
            assert(views(kept@) == views(was).push(copy@));
        }
        i += 1;
    }
    assert(all.take(i as int) == all);
    joined(kept.as_slice(), chars_of(" ").as_slice())
}

/// One statement that was logged.
#[derive(Debug)]
pub struct SlowQuery {
    pub bucket: Moment,
    pub digest: String,
    pub ms: Number,
    pub lock: Number,
    pub sent: Number,
    pub examined: Number,
}

#[verifier::ext_equal]
pub struct SlowView {
    pub bucket: int,
    pub digest: Seq<char>,
    pub ms: Number,
    pub lock: Number,
    pub sent: Number,
    pub examined: Number,
}

impl View for SlowQuery {
    type V = SlowView;

    open spec fn view(&self) -> SlowView {
        SlowView {
            bucket: self.bucket.nanos as int,
            digest: self.digest@,
            ms: self.ms,
            lock: self.lock,
            sent: self.sent,
            examined: self.examined,
        }
    }
}

/// From when to when statements are counted.
pub type Interval = Option<(Moment, Moment)>;

pub open spec fn outside(at: int, interval: Interval) -> bool {
    interval matches Some((start, end)) && (at < start.nanos || at > end.nanos)
}

/// The entry has a time and a duration, and lies in the interval.
pub open spec fn counts(entry: EntryView, interval: Interval) -> bool {
    entry.at is Some && entry.duration is Some && !outside(entry.at->0, interval)
}

/// The statement of an entry that counts, where it has one.
pub open spec fn slow_query(entry: EntryView, interval: Interval) -> Option<SlowView> {
    match digest_of(statement_of(entry)) {
        Some(digest) => if counts(entry, interval) && digest.len() > 0 {
            Some(
                SlowView {
                    bucket: epoch_bucket(Moment { nanos: entry.at->0 as i128 }).nanos as int,
                    digest,
                    ms: entry.duration->0,
                    lock: entry.lock,
                    sent: entry.sent,
                    examined: entry.examined,
                },
            )
        } else {
            None
        },
        None => None,
    }
}

pub open spec fn pick_query(interval: Interval) -> spec_fn(EntryView) -> Option<SlowView> {
    |e: EntryView| slow_query(e, interval)
}

/// An entry that counts whose digest cannot be cut.
pub open spec fn is_uncut(interval: Interval) -> spec_fn(EntryView) -> bool {
    |e: EntryView| counts(e, interval) && digest_of(statement_of(e)) is None
}

/// The statements of the entries, where every digest can be cut.
pub open spec fn slow_queries(entries: Seq<EntryView>, interval: Interval) -> Option<Seq<SlowView>> {
    if exists|i: int| 0 <= i < entries.len() && is_uncut(interval)(#[trigger] entries[i]) {
        None
    } else {
        Some(crate::protocol::picked(entries, pick_query(interval)))
    }
}

/// Keeps the statements that count.
pub fn keep_queries(entries: &Vec<Entry>, interval: Interval) -> (r: Result<
    Vec<SlowQuery>,
    CutInsideCharacter,
>)
    requires
        entries_dated(entries@),
    ensures
        match r {
            Ok(queries) => slow_queries(value_views(entries@), interval) == Some(
                value_views(queries@),
            ),
            Err(_) => slow_queries(value_views(entries@), interval) is None,
        },
{
    let ghost all = value_views(entries@);
    let ghost pick = pick_query(interval);
    let mut out: Vec<SlowQuery> = Vec::new();
    let mut i: usize = 0;
    assert(all.take(0) == Seq::<EntryView>::empty());
    assert(value_views(out@) == Seq::<SlowView>::empty());
    while i < entries.len()
        invariant
            i <= entries@.len(),
            entries_dated(entries@),
            all == value_views(entries@),
            pick == pick_query(interval),
            forall|j: int| 0 <= j < i ==> !is_uncut(interval)(#[trigger] all[j]),
            value_views(out@) == crate::protocol::picked(all.take(i as int), pick),
        decreases entries.len() - i,
    {
        let entry = &entries[i];
        proof {
            assert(all[i as int] == entry@);
            assert(all.take(i + 1).drop_last() == all.take(i as int));
            assert(all.take(i + 1).last() == entry@);
        }
        match (entry.at, entry.duration) {
            (Some(at), Some(ms)) => {
                let left_out = match interval {
                    Some((start, end)) => at.nanos < start.nanos || at.nanos > end.nanos,
                    None => false,
                };
                if !left_out {
                    let statement = statement_from(entry);
                    match normalize_sql_digest(statement.as_slice()) {
                        Ok(digest) => {
                            if digest.len() > 0 {
                                let query = SlowQuery {
                                    bucket: bucket_of_epoch(at),
                                    digest: string_of(digest.as_slice()),
                                    ms,
                                    lock: entry.lock,
                                    sent: entry.sent,
                                    examined: entry.examined,
                                };
                                let ghost was = out@;
                                out.push(query);
                                assert(value_views(out@) == value_views(was).push(query@));
                                assert(Moment { nanos: entry@.at->0 as i128 } == at);
                                assert(pick(entry@) == Some(query@));
                            }
                        },
                        Err(error) => {
                            assert(is_uncut(interval)(all[i as int]));
                            return Err(error);
                        },
                    }
                }
            },
            _ => {},
        }
        i += 1;
    }
    assert(all.take(i as int) == all);
    Ok(out)
}

pub open spec fn digest_key() -> spec_fn(SlowView) -> Seq<char> {
    |q: SlowView| q.digest
}

pub open spec fn timed_digest_key() -> spec_fn(SlowView) -> (int, Seq<char>) {
    |q: SlowView| (q.bucket, q.digest)
}

pub open spec fn ms_of() -> spec_fn(SlowView) -> Number {
    |q: SlowView| q.ms
}

pub open spec fn lock_of() -> spec_fn(SlowView) -> Number {
    |q: SlowView| q.lock
}

pub open spec fn sent_of() -> spec_fn(SlowView) -> Number {
    |q: SlowView| q.sent
}

pub open spec fn examined_of() -> spec_fn(SlowView) -> Number {
    |q: SlowView| q.examined
}

/// The values added up from zero.
pub open spec fn added_up(
    f: spec_fn(Op) -> Number,
    queries: Seq<SlowView>,
    value: spec_fn(SlowView) -> Number,
) -> Number {
    total_from(f, Number::zero_spec(), queries.map_values(value))
}

pub open spec fn query_labels(digest: Seq<char>) -> Seq<Pair> {
    with_label(with_label(no_labels(), "engine"@, "mysql"@), "digest"@, digest)
}

pub open spec fn query_metric(
    name: Seq<char>,
    value: Number,
    unit: Seq<char>,
    at: Option<Moment>,
    digest: Seq<char>,
) -> MetricView {
    MetricView { name, value, unit, timestamp: at, labels: query_labels(digest) }
}

/// What is said of the calls of one statement.
pub open spec fn query_rows(
    f: spec_fn(Op) -> Number,
    at: Option<Moment>,
    digest: Seq<char>,
    queries: Seq<SlowView>,
) -> Seq<MetricView> {
    seq![
        query_metric("db.query.calls"@, count_value(f, queries.len()), "queries"@, at, digest),
        query_metric(
            "db.query.total_duration"@,
            added_up(f, queries, ms_of()),
            "ms"@,
            at,
            digest,
        ),
        query_metric(
            "db.query.lock_duration"@,
            added_up(f, queries, lock_of()),
            "ms"@,
            at,
            digest,
        ),
        query_metric("db.query.rows_sent"@, added_up(f, queries, sent_of()), "rows"@, at, digest),
        query_metric(
            "db.query.rows_examined"@,
            added_up(f, queries, examined_of()),
            "rows"@,
            at,
            digest,
        ),
    ]
}

/// The duration that ninety-five of a hundred calls do not exceed.
pub open spec fn slowest(f: spec_fn(Op) -> Number, queries: Seq<SlowView>) -> Option<Number> {
    percentile_of(
        f,
        stable_sorted::<Number, Number>(queries.map_values(ms_of()), own_place()),
        Number { bits: NEARLY_ALL },
    )
}

/// What is said of the calls of one statement over the whole log.
pub open spec fn whole_rows(
    f: spec_fn(Op) -> Number,
    digest: Seq<char>,
    queries: Seq<SlowView>,
) -> Seq<MetricView> {
    let rows = query_rows(f, None, digest, queries);
    match slowest(f, queries) {
        Some(p95) => rows.push(
            query_metric("db.query.p95_duration"@, p95, "ms"@, None, digest),
        ),
        None => rows,
    }
}

pub open spec fn timed_query_rows(f: spec_fn(Op) -> Number, queries: Seq<SlowView>) -> spec_fn(
    (int, Seq<char>),
) -> Seq<MetricView> {
    |k: (int, Seq<char>)|
        query_rows(
            f,
            Some(Moment { nanos: k.0 as i128 }),
            k.1,
            with_key(queries, timed_digest_key(), k),
        )
}

pub open spec fn whole_query_rows(f: spec_fn(Op) -> Number, queries: Seq<SlowView>) -> spec_fn(
    Seq<char>,
) -> Seq<MetricView> {
    |k: Seq<char>| whole_rows(f, k, with_key(queries, digest_key(), k))
}

/// The metrics of the statements: by time and statement, and by statement over the whole log.
pub open spec fn slow_metrics(f: spec_fn(Op) -> Number, queries: Seq<SlowView>) -> Seq<MetricView> {
    chain(
        distinct_sorted::<(Moment, String)>(queries.map_values(timed_digest_key())).map_values(
            timed_query_rows(f, queries),
        ),
    ) + chain(
        distinct_sorted::<String>(queries.map_values(digest_key())).map_values(
            whole_query_rows(f, queries),
        ),
    )
}

fn column(members: &Vec<&SlowQuery>, which: u8) -> (r: Vec<Number>)
    ensures
        which == 0 ==> r@ == ref_views(members@).map_values(ms_of()),
        which == 1 ==> r@ == ref_views(members@).map_values(lock_of()),
        which == 2 ==> r@ == ref_views(members@).map_values(sent_of()),
        which >= 3 ==> r@ == ref_views(members@).map_values(examined_of()),
{
    let ghost all = ref_views(members@);
    let mut out: Vec<Number> = Vec::new();
    let mut i: usize = 0;
    while i < members.len()
        invariant
            i <= members@.len(),
            all == ref_views(members@),
            out@.len() == i,
            forall|j: int|
                0 <= j < i ==> #[trigger] out@[j] == (if which == 0 {
                    all[j].ms
                } else if which == 1 {
                    all[j].lock
                } else if which == 2 {
                    all[j].sent
                } else {
                    all[j].examined
                }),
        decreases members.len() - i,
    {
        let m = members[i];
        assert(all[i as int] == m@);
        out.push(
            if which == 0 {
                m.ms
            } else if which == 1 {
                m.lock
            } else if which == 2 {
                m.sent
            } else {
                m.examined
            },
        );
        i += 1;
    }
    out
}

fn add_query<F: Fn(Op) -> Number>(
    out: &mut Vec<Metric>,
    at: Option<Moment>,
    members: &Vec<&SlowQuery>,
    compute: &F,
)
    requires
        is_arithmetic(*compute),
        members@.len() > 0,
    ensures
        value_views(final(out)@) == value_views(old(out)@) + query_rows(
            arithmetic(*compute),
            at,
            members@[0].digest@,
            ref_views(members@),
        ),
{
    let ghost before = value_views(out@);
    let ghost all = ref_views(members@);
    let labels = labels2("engine", "mysql", "digest", members[0].digest.as_str());
    let zero = Number::zero();
    let calls = apply(compute, Op::Integer(members.len() as i64));
    add_metric(out, "db.query.calls", calls, "queries", at, &labels);
    let total = sum_from(zero, column(members, 0).as_slice(), compute);
    add_metric(out, "db.query.total_duration", total, "ms", at, &labels);
    let lock = sum_from(zero, column(members, 1).as_slice(), compute);
    add_metric(out, "db.query.lock_duration", lock, "ms", at, &labels);
    let sent = sum_from(zero, column(members, 2).as_slice(), compute);
    add_metric(out, "db.query.rows_sent", sent, "rows", at, &labels);
    let examined = sum_from(zero, column(members, 3).as_slice(), compute);
    add_metric(out, "db.query.rows_examined", examined, "rows", at, &labels);
    assert(all.len() == members@.len());
    assert(value_views(out@) == before + query_rows(
        arithmetic(*compute),
        at,
        members@[0].digest@,
        all,
    ));
}

fn add_whole_query<F: Fn(Op) -> Number>(
    out: &mut Vec<Metric>,
    members: &Vec<&SlowQuery>,
    compute: &F,
)
    requires
        is_arithmetic(*compute),
        members@.len() > 0,
    ensures
        value_views(final(out)@) == value_views(old(out)@) + whole_rows(
            arithmetic(*compute),
            members@[0].digest@,
            ref_views(members@),
        ),
{
    let ghost before = value_views(out@);
    let ghost all = ref_views(members@);
    let ghost f = arithmetic(*compute);
    add_query(out, None, members, compute);
    let sorted = sorted_numbers(column(members, 0));
    let labels = labels2("engine", "mysql", "digest", members[0].digest.as_str());
    match percentile(sorted.as_slice(), Number { bits: NEARLY_ALL }, compute) {
        Some(p95) => {
            add_metric(out, "db.query.p95_duration", p95, "ms", None, &labels);
        },
        None => {},
    }
    assert(value_views(out@) == before + whole_rows(f, members@[0].digest@, all));
}

fn add_timed<F: Fn(Op) -> Number>(
    out: &mut Vec<Metric>,
    queries: &Vec<SlowQuery>,
    compute: &F,
)
    requires
        is_arithmetic(*compute),
    ensures
        value_views(final(out)@) == value_views(old(out)@) + chain(
            distinct_sorted::<(Moment, String)>(
                value_views(queries@).map_values(timed_digest_key()),
            ).map_values(timed_query_rows(arithmetic(*compute), value_views(queries@))),
        ),
{
    let ghost f = arithmetic(*compute);
    let ghost all = value_views(queries@);
    let ghost before = value_views(out@);
    let mut keys: Vec<(Moment, String)> = Vec::new();
    let mut i: usize = 0;
    while i < queries.len()
        invariant
            i <= queries@.len(),
            all == value_views(queries@),
            models(keys@) == all.take(i as int).map_values(timed_digest_key()),
        decreases queries.len() - i,
    {
        let ghost was = keys@;
        keys.push((queries[i].bucket, queries[i].digest.clone()));
        assert(models(keys@) == models(was).push(timed_digest_key()(all[i as int])));
        assert(all.take(i + 1).map_values(timed_digest_key()) == all.take(i as int).map_values(
            timed_digest_key(),
        ).push(timed_digest_key()(all[i as int])));
        i += 1;
    }
    assert(all.take(i as int) == all);
    let groups = grouped(queries.as_slice(), &keys, Ghost(timed_digest_key()));
    let ghost names = distinct_sorted::<(Moment, String)>(all.map_values(timed_digest_key()));
    let ghost each = timed_query_rows(f, all);
    let mut g: usize = 0;
    assert(before + chain(names.take(0).map_values(each)) == before);
    while g < groups.len()
        invariant
            is_arithmetic(*compute),
            f == arithmetic(*compute),
            g <= groups@.len(),
            each == timed_query_rows(f, all),
            groups@.len() == names.len(),
            forall|h: int|
                0 <= h < groups@.len() ==> ref_views((#[trigger] groups@[h])@) == with_key(
                    all,
                    timed_digest_key(),
                    names[h],
                ) && groups@[h]@.len() > 0,
            value_views(out@) == before + chain(names.take(g as int).map_values(each)),
        decreases groups.len() - g,
    {
        let members = &groups[g];
        let ghost k = names[g as int];
        proof {
            with_key_holds(all, timed_digest_key(), k, 0);
            assert(ref_views(members@)[0] == members@[0]@);
        }
        let at = members[0].bucket;
        add_query(out, Some(at), members, compute);
        proof {
            let next = names.take(g + 1).map_values(each);
            assert(next.drop_last() == names.take(g as int).map_values(each));
            assert(next.last() == each(k));
            assert(Moment { nanos: k.0 as i128 } == at);
            assert(before + (chain(next.drop_last()) + next.last()) == before + chain(
                next.drop_last(),
            ) + next.last());
        }
        g += 1;
    }
    assert(names.take(g as int) == names);
}

fn add_whole<F: Fn(Op) -> Number>(
    out: &mut Vec<Metric>,
    queries: &Vec<SlowQuery>,
    compute: &F,
)
    requires
        is_arithmetic(*compute),
    ensures
        value_views(final(out)@) == value_views(old(out)@) + chain(
            distinct_sorted::<String>(value_views(queries@).map_values(digest_key())).map_values(
                whole_query_rows(arithmetic(*compute), value_views(queries@)),
            ),
        ),
{
    let ghost f = arithmetic(*compute);
    let ghost all = value_views(queries@);
    let ghost before = value_views(out@);
    let mut keys: Vec<String> = Vec::new();
    let mut i: usize = 0;
    while i < queries.len()
        invariant
            i <= queries@.len(),
            all == value_views(queries@),
            models(keys@) == all.take(i as int).map_values(digest_key()),
        decreases queries.len() - i,
    {
        let ghost was = keys@;
        keys.push(queries[i].digest.clone());
        assert(models(keys@) == models(was).push(digest_key()(all[i as int])));
        assert(all.take(i + 1).map_values(digest_key()) == all.take(i as int).map_values(
            digest_key(),
        ).push(digest_key()(all[i as int])));
        i += 1;
    }
    assert(all.take(i as int) == all);
    let groups = grouped(queries.as_slice(), &keys, Ghost(digest_key()));
    let ghost names = distinct_sorted::<String>(all.map_values(digest_key()));
    let ghost each = whole_query_rows(f, all);
    let mut g: usize = 0;
    assert(before + chain(names.take(0).map_values(each)) == before);
    while g < groups.len()
        invariant
            is_arithmetic(*compute),
            f == arithmetic(*compute),
            g <= groups@.len(),
            each == whole_query_rows(f, all),
            groups@.len() == names.len(),
            forall|h: int|
                0 <= h < groups@.len() ==> ref_views((#[trigger] groups@[h])@) == with_key(
                    all,
                    digest_key(),
                    names[h],
                ) && groups@[h]@.len() > 0,
            value_views(out@) == before + chain(names.take(g as int).map_values(each)),
        decreases groups.len() - g,
    {
        let members = &groups[g];
        let ghost k = names[g as int];
        proof {
            with_key_holds(all, digest_key(), k, 0);
            assert(ref_views(members@)[0] == members@[0]@);
        }
        add_whole_query(out, members, compute);
        proof {
            let next = names.take(g + 1).map_values(each);
            assert(next.drop_last() == names.take(g as int).map_values(each));
            assert(next.last() == each(k));
            assert(before + (chain(next.drop_last()) + next.last()) == before + chain(
                next.drop_last(),
            ) + next.last());
        }
        g += 1;
    }
    assert(names.take(g as int) == names);
}

/// The metrics of a log whose lines are given.
pub open spec fn log_metrics(
    f: spec_fn(Op) -> Number,
    number: spec_fn(Seq<char>) -> Option<Number>,
    log: Seq<Seq<char>>,
    interval: Interval,
) -> Option<Seq<MetricView>> {
    match slow_queries(log_entries(f, number, log), interval) {
        Some(queries) => Some(slow_metrics(f, queries)),
        None => None,
    }
}

/// Reads the lines of a slow log into metrics.
pub fn parse_mysql_slow_lines<F: Fn(Op) -> Number, R: Fn(&str) -> Option<Number>>(
    log: Vec<Vec<char>>,
    interval: Interval,
    compute: &F,
    read: &R,
) -> (r: Result<Vec<Metric>, CutInsideCharacter>)
    requires
        is_arithmetic(*compute),
        is_reader(*read),
    ensures
        match r {
            Ok(metrics) => log_metrics(
                arithmetic(*compute),
                reading(*read),
                views(log@),
                interval,
            ) == Some(value_views(metrics@)),
            Err(_) => log_metrics(
                arithmetic(*compute),
                reading(*read),
                views(log@),
                interval,
            ) is None,
        },
{
    let entries = read_entries(log, compute, read);
    match keep_queries(&entries, interval) {
        Ok(queries) => {
            let mut out: Vec<Metric> = Vec::new();
            assert(value_views(out@) == Seq::<MetricView>::empty());
            add_timed(&mut out, &queries, compute);
            add_whole(&mut out, &queries, compute);
            assert(value_views(out@) == slow_metrics(
                arithmetic(*compute),
                value_views(queries@),
            ));
            Ok(out)
        },
        Err(error) => Err(error),
    }
}

/// The lines of a log, each as text with a replacement for what is not UTF-8.
pub open spec fn slow_lines(bytes: Seq<u8>) -> Seq<Seq<char>> {
    byte_lines(bytes).map_values(|l: Seq<u8>| lossy_text(l))
}

/// Reads a slow log into metrics.
pub fn parse_mysql_slow_reader<F: Fn(Op) -> Number, R: Fn(&str) -> Option<Number>>(
    raw: &[u8],
    interval: Interval,
    compute: &F,
    read: &R,
) -> (r: Result<Vec<Metric>, CutInsideCharacter>)
    requires
        is_arithmetic(*compute),
        is_reader(*read),
    ensures
        match r {
            Ok(metrics) => log_metrics(
                arithmetic(*compute),
                reading(*read),
                slow_lines(raw@),
                interval,
            ) == Some(value_views(metrics@)),
            Err(_) => log_metrics(
                arithmetic(*compute),
                reading(*read),
                slow_lines(raw@),
                interval,
            ) is None,
        },
{
    let lines = byte_lines_of(raw);
    let ghost all = byte_lines(raw@);
    let ghost each = |l: Seq<u8>| lossy_text(l);
    let mut log: Vec<Vec<char>> = Vec::new();
    let mut i: usize = 0;
    while i < lines.len()
        invariant
            i <= lines@.len(),
            all == byte_views(lines@),
            each == (|l: Seq<u8>| lossy_text(l)),
            views(log@) == all.take(i as int).map_values(each),
        decreases lines.len() - i,
    {
        let text = text_from_lossy(lines[i].as_slice());
        let line = chars_of(text.as_str());
        let ghost was = log@;
        log.push(line);
        assert(all[i as int] == lines@[i as int]@);
        assert(views(log@) == views(was).push(line@));
        assert(all.take(i + 1).map_values(each) == all.take(i as int).map_values(each).push(
            each(all[i as int]),
        ));
        i += 1;
    }
    assert(all.take(i as int) == all);
    parse_mysql_slow_lines(log, interval, compute, read)
}

/// No statement outside the interval is counted.
pub proof fn only_the_interval_counts(entries: Seq<EntryView>, interval: Interval, i: int)
    requires
        0 <= i < entries.len(),
        entries[i].at matches Some(at) && outside(at, interval),
    ensures
        slow_query(entries[i], interval) is None,
{
}

/// White space before a statement does not change its digest.
pub proof fn leading_space_is_dropped(s: Seq<char>, i: int)
    requires
        0 <= i < s.len(),
        is_space(s[i]),
    ensures
        digest_from(s, i, Seq::empty(), false) == digest_from(s, i + 1, Seq::empty(), false),
{
}

} // verus!
