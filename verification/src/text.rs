//! Text as sequences of characters.
use vstd::prelude::*;

verus! {

/// `String::push` appends one character.
pub assume_specification[ String::push ](s: &mut String, c: char)
    ensures
        final(s)@ == old(s)@.push(c),
;

/// The characters of `s`, in order.
pub fn chars_of(s: &str) -> (out: Vec<char>)
    ensures
        out@ == s@,
{
    let mut out: Vec<char> = Vec::new();
    for c in it: s.chars()
        invariant
            out@ == s@.take(it.index() as int),
            it.seq() == s@,
    {
        out.push(c);
        assert(s@.take(it.index() + 1) == s@.take(it.index() as int).push(c));
    }
    assert(s@.take(s@.len() as int) == s@);
    out
}

/// The string made of the characters `chars`.
pub fn string_of(chars: &[char]) -> (out: String)
    ensures
        out@ == chars@,
{
    let mut out = String::new();
    let mut i: usize = 0;
    while i < chars.len()
        invariant
            i <= chars.len(),
            out@ == chars@.take(i as int),
        decreases chars.len() - i,
    {
        out.push(chars[i]);
        assert(chars@.take(i + 1) == chars@.take(i as int).push(chars[i as int]));
        i += 1;
    }
    assert(chars@.take(chars@.len() as int) == chars@);
    out
}

/// Whether the two texts are equal.
pub fn same(a: &str, b: &str) -> (r: bool)
    ensures
        r == (a@ == b@),
{
    same_chars(chars_of(a).as_slice(), chars_of(b).as_slice())
}

pub fn same_chars(a: &[char], b: &[char]) -> (r: bool)
    ensures
        r == (a@ == b@),
{
    if a.len() != b.len() {
        return false;
    }
    let mut i: usize = 0;
    while i < a.len()
        invariant
            a.len() == b.len(),
            i <= a.len(),
            forall|j: int| 0 <= j < i ==> a@[j] == b@[j],
        decreases a.len() - i,
    {
        if a[i] != b[i] {
            return false;
        }
        i += 1;
    }
    assert(a@ == b@);
    true
}

/// The characters from position `from` up to position `to`.
pub fn slice_of(s: &[char], from: usize, to: usize) -> (out: Vec<char>)
    requires
        from <= to <= s@.len(),
    ensures
        out@ == s@.subrange(from as int, to as int),
{
    let mut out: Vec<char> = Vec::new();
    let mut i: usize = from;
    while i < to
        invariant
            from <= i <= to <= s@.len(),
            out@ == s@.subrange(from as int, i as int),
        decreases to - i,
    {
        out.push(s[i]);
        assert(s@.subrange(from as int, i + 1) == s@.subrange(from as int, i as int).push(
            s@[i as int],
        ));
        i += 1;
    }
    out
}

/// Appends `more` to `out`.
pub fn append(out: &mut Vec<char>, more: &[char])
    ensures
        final(out)@ == old(out)@ + more@,
{
    let ghost before = out@;
    let mut i: usize = 0;
    while i < more.len()
        invariant
            i <= more.len(),
            out@ == before + more@.take(i as int),
        decreases more.len() - i,
    {
        out.push(more[i]);
        assert(more@.take(i + 1) == more@.take(i as int).push(more@[i as int]));
        assert(before + more@.take(i + 1) == (before + more@.take(i as int)).push(more@[i as int]));
        i += 1;
    }
    assert(more@.take(more@.len() as int) == more@);
}

/// Appends the text `more` to `out`.
pub fn append_str(out: &mut Vec<char>, more: &str)
    ensures
        final(out)@ == old(out)@ + more@,
{
    let chars = chars_of(more);
    append(out, chars.as_slice());
}

/// The characters with the Unicode property `White_Space`.
pub open spec fn is_space(c: char) -> bool {
    ||| '\u{9}' <= c <= '\u{d}'
    ||| c == ' '
    ||| c == '\u{85}'
    ||| c == '\u{a0}'
    ||| c == '\u{1680}'
    ||| '\u{2000}' <= c <= '\u{200a}'
    ||| c == '\u{2028}'
    ||| c == '\u{2029}'
    ||| c == '\u{202f}'
    ||| c == '\u{205f}'
    ||| c == '\u{3000}'
}

pub fn space(c: char) -> (r: bool)
    ensures
        r == is_space(c),
{
    ('\u{9}' <= c && c <= '\u{d}') || c == ' ' || c == '\u{85}' || c == '\u{a0}' || c == '\u{1680}'
        || ('\u{2000}' <= c && c <= '\u{200a}') || c == '\u{2028}' || c == '\u{2029}' || c
        == '\u{202f}' || c == '\u{205f}' || c == '\u{3000}'
}

pub open spec fn is_digit(c: char) -> bool {
    '0' <= c <= '9'
}

pub fn digit(c: char) -> (r: bool)
    ensures
        r == is_digit(c),
{
    '0' <= c && c <= '9'
}

pub open spec fn is_letter(c: char) -> bool {
    ('a' <= c <= 'z') || ('A' <= c <= 'Z')
}

/// ASCII letters and digits.
pub open spec fn is_alnum(c: char) -> bool {
    is_letter(c) || is_digit(c)
}

pub fn alnum(c: char) -> (r: bool)
    ensures
        r == is_alnum(c),
{
    ('a' <= c && c <= 'z') || ('A' <= c && c <= 'Z') || digit(c)
}

/// `s` without the white space at its start.
pub open spec fn trim_start(s: Seq<char>) -> Seq<char>
    decreases s.len(),
{
    if s.len() > 0 && is_space(s[0]) {
        trim_start(s.skip(1))
    } else {
        s
    }
}

/// `s` without the white space at its end.
pub open spec fn trim_end(s: Seq<char>) -> Seq<char>
    decreases s.len(),
{
    if s.len() > 0 && is_space(s.last()) {
        trim_end(s.drop_last())
    } else {
        s
    }
}

/// `s` without the white space at both ends.
pub open spec fn trim(s: Seq<char>) -> Seq<char> {
    trim_end(trim_start(s))
}

/// A text of white space alone, the empty one included.
pub open spec fn is_blank(s: Seq<char>) -> bool {
    trim(s).len() == 0
}

pub fn trimmed_end(s: &[char]) -> (out: Vec<char>)
    ensures
        out@ == trim_end(s@),
{
    let mut end: usize = s.len();
    assert(s@.take(end as int) == s@);
    while end > 0 && space(s[end - 1])
        invariant
            end <= s.len(),
            trim_end(s@.take(end as int)) == trim_end(s@),
        decreases end,
    {
        assert(s@.take(end as int).drop_last() == s@.take(end - 1));
        end -= 1;
    }
    assert(s@.take(end as int) == s@.subrange(0, end as int));
    slice_of(s, 0, end)
}

pub fn trimmed(s: &[char]) -> (out: Vec<char>)
    ensures
        out@ == trim(s@),
{
    let rest = trimmed_start(s);
    trimmed_end(rest.as_slice())
}

/// A blank text holds white space only.
pub proof fn blank_is_space(s: Seq<char>)
    requires
        is_blank(s),
    ensures
        forall|i: int| 0 <= i < s.len() ==> is_space(#[trigger] s[i]),
    decreases s.len(),
{
    if s.len() > 0 && is_space(s[0]) {
        blank_is_space(s.skip(1));
        assert forall|i: int| 0 <= i < s.len() implies is_space(#[trigger] s[i]) by {
            if i > 0 {
                assert(s[i] == s.skip(1)[i - 1]);
            }
        }
    } else if s.len() > 0 {
        first_stays(s);
    }
}

/// What does not begin with white space keeps its first character.
proof fn first_stays(s: Seq<char>)
    requires
        s.len() > 0,
        !is_space(s[0]),
    ensures
        trim_end(s).len() > 0,
    decreases s.len(),
{
    if is_space(s.last()) {
        first_stays(s.drop_last());
    }
}

pub fn blank(s: &str) -> (r: bool)
    ensures
        r == is_blank(s@),
{
    trimmed(chars_of(s).as_slice()).len() == 0
}

/// Whether `s` begins with `p`.
pub open spec fn starts(s: Seq<char>, p: Seq<char>) -> bool {
    p.len() <= s.len() && s.take(p.len() as int) == p
}

/// Whether `s` ends with `p`.
pub open spec fn ends(s: Seq<char>, p: Seq<char>) -> bool {
    p.len() <= s.len() && s.skip(s.len() - p.len()) == p
}

/// Whether `p` stands in `s` at position `at`.
pub open spec fn stands_at(s: Seq<char>, p: Seq<char>, at: int) -> bool {
    0 <= at <= s.len() && starts(s.skip(at), p)
}

pub fn found_at(s: &[char], p: &[char], at: usize) -> (r: bool)
    requires
        at <= s@.len(),
    ensures
        r == stands_at(s@, p@, at as int),
{
    if s.len() - at < p.len() {
        return false;
    }
    let part = slice_of(s, at, at + p.len());
    assert(s@.skip(at as int).take(p@.len() as int) == s@.subrange(
        at as int,
        at + p@.len(),
    ));
    same_chars(part.as_slice(), p)
}

pub fn starts_with(s: &[char], p: &[char]) -> (r: bool)
    ensures
        r == starts(s@, p@),
{
    assert(s@.skip(0) == s@);
    found_at(s, p, 0)
}

pub fn ends_with(s: &[char], p: &[char]) -> (r: bool)
    ensures
        r == ends(s@, p@),
{
    if s.len() < p.len() {
        return false;
    }
    let part = slice_of(s, s.len() - p.len(), s.len());
    assert(s@.skip(s@.len() - p@.len()) == s@.subrange(s@.len() - p@.len(), s@.len() as int));
    same_chars(part.as_slice(), p)
}

/// The first position at or after `from` at which `p` stands in `s`.
pub open spec fn find_from(s: Seq<char>, p: Seq<char>, from: int) -> Option<int>
    decreases s.len() - from + 1,
{
    if from > s.len() {
        None
    } else if stands_at(s, p, from) {
        Some(from)
    } else {
        find_from(s, p, from + 1)
    }
}

pub open spec fn find(s: Seq<char>, p: Seq<char>) -> Option<int> {
    find_from(s, p, 0)
}

/// Whether `p` stands somewhere in `s`.
pub open spec fn contains_text(s: Seq<char>, p: Seq<char>) -> bool {
    exists|at: int| #[trigger] stands_at(s, p, at)
}

/// `find_from` gives the least position at which the pattern stands, where there is one.
pub proof fn find_is_first(s: Seq<char>, p: Seq<char>, from: int)
    requires
        0 <= from,
    ensures
        match find_from(s, p, from) {
            Some(at) => from <= at <= s.len() && stands_at(s, p, at) && forall|i: int|
                from <= i < at ==> !(#[trigger] stands_at(s, p, i)),
            None => forall|i: int| from <= i ==> !(#[trigger] stands_at(s, p, i)),
        },
    decreases s.len() - from + 1,
{
    if from <= s.len() && !stands_at(s, p, from) {
        find_is_first(s, p, from + 1);
    }
}

pub fn find_at(s: &[char], p: &[char], from: usize) -> (r: Option<usize>)
    requires
        from <= s@.len(),
    ensures
        match r {
            Some(at) => find_from(s@, p@, from as int) == Some(at as int) && at <= s@.len()
                && stands_at(s@, p@, at as int),
            None => find_from(s@, p@, from as int) is None,
        },
{
    let mut at: usize = from;
    loop
        invariant
            from <= at <= s@.len(),
            find_from(s@, p@, from as int) == find_from(s@, p@, at as int),
        decreases s@.len() - at,
    {
        if found_at(s, p, at) {
            return Some(at);
        }
        if at == s.len() {
            assert(find_from(s@, p@, at + 1) is None);
            return None;
        }
        at += 1;
    }
}

/// The pieces of `s` between the separators `sep`: one more than there are separators.
pub open spec fn split(s: Seq<char>, sep: char) -> Seq<Seq<char>>
    decreases s.len(),
{
    if s.len() == 0 {
        seq![Seq::empty()]
    } else {
        let rest = split(s.drop_last(), sep);
        if s.last() == sep {
            rest.push(Seq::empty())
        } else {
            rest.update(rest.len() - 1, rest.last().push(s.last()))
        }
    }
}

/// The mathematical values of a list of texts.
pub open spec fn views(parts: Seq<Vec<char>>) -> Seq<Seq<char>> {
    parts.map_values(|p: Vec<char>| p@)
}

pub open spec fn texts(parts: Seq<String>) -> Seq<Seq<char>> {
    parts.map_values(|p: String| p@)
}

/// There is one piece at least.
pub proof fn split_is_not_empty(s: Seq<char>, sep: char)
    ensures
        split(s, sep).len() > 0,
    decreases s.len(),
{
    if s.len() > 0 {
        split_is_not_empty(s.drop_last(), sep);
    }
}

pub fn split_at_each(s: &[char], sep: char) -> (out: Vec<Vec<char>>)
    ensures
        views(out@) == split(s@, sep),
        out@.len() > 0,
{
    let mut done: Vec<Vec<char>> = Vec::new();
    let mut piece: Vec<char> = Vec::new();
    let mut i: usize = 0;
    assert(s@.take(0) == Seq::<char>::empty());
    assert(views(done@).push(piece@) == split(s@.take(0), sep));
    while i < s.len()
        invariant
            i <= s.len(),
            views(done@).push(piece@) == split(s@.take(i as int), sep),
        decreases s.len() - i,
    {
        let c = s[i];
        assert(s@.take(i + 1).drop_last() == s@.take(i as int));
        let ghost before = views(done@).push(piece@);
        if c == sep {
            let ghost was = done@;
            done.push(piece);
            assert(views(done@) == views(was).push(piece@));
            piece = Vec::new();
        } else {
            let ghost old_piece = piece@;
            piece.push(c);
            assert(before.update(before.len() - 1, before.last().push(c)) == views(done@).push(
                piece@,
            ));
        }
        i += 1;
    }
    assert(s@.take(s@.len() as int) == s@);
    let ghost was = done@;
    done.push(piece);
    assert(views(done@) == views(was).push(piece@));
    done
}

/// `line` without one carriage return at its end.
pub open spec fn strip_return(line: Seq<char>) -> Seq<char> {
    if line.len() > 0 && line.last() == '\r' {
        line.drop_last()
    } else {
        line
    }
}

/// The lines of `s`: each ends at a line feed, before which one carriage return is dropped;
/// characters after the last line feed make a line of their own, kept as they stand.
pub open spec fn lines(s: Seq<char>) -> Seq<Seq<char>> {
    let pieces = split(s, '\n');
    let ended = pieces.drop_last().map_values(|l: Seq<char>| strip_return(l));
    if pieces.last().len() == 0 {
        ended
    } else {
        ended.push(pieces.last())
    }
}

pub fn lines_of(s: &[char]) -> (out: Vec<Vec<char>>)
    ensures
        views(out@) == lines(s@),
{
    let mut pieces = split_at_each(s, '\n');
    let ghost all = split(s@, '\n');
    let ghost before = pieces@;
    let rest = pieces.pop().unwrap();
    assert(rest@ == all.last());
    assert(views(pieces@) == all.drop_last());
    let ghost strip = |l: Seq<char>| strip_return(l);
    let mut out: Vec<Vec<char>> = Vec::new();
    let mut i: usize = 0;
    while i < pieces.len()
        invariant
            i <= pieces.len(),
            views(pieces@) == all.drop_last(),
            strip == (|l: Seq<char>| strip_return(l)),
            views(out@) == all.drop_last().take(i as int).map_values(strip),
        decreases pieces.len() - i,
    {
        let line = &pieces[i];
        assert(line@ == views(pieces@)[i as int]);
        let n: usize = line.len();
        let kept = if n > 0 && line[n - 1] == '\r' {
            slice_of(line.as_slice(), 0, n - 1)
        } else {
            slice_of(line.as_slice(), 0, n)
        };
        assert(line@.subrange(0, n as int) == line@);
        assert(kept@ == strip_return(line@));
        let ghost was = out@;
        out.push(kept);
        assert(views(out@) == views(was).push(kept@));
        assert(all.drop_last().take(i + 1).map_values(strip) == all.drop_last().take(
            i as int,
        ).map_values(strip).push(strip_return(line@)));
        i += 1;
    }
    assert(all.drop_last().take(pieces@.len() as int) == all.drop_last());
    if rest.len() > 0 {
        let ghost was = out@;
        out.push(rest);
        assert(views(out@) == views(was).push(rest@));
    }
    out
}

/// The maximal runs of characters that are not white space.
pub open spec fn words(s: Seq<char>) -> Seq<Seq<char>>
    decreases s.len(),
{
    if s.len() == 0 {
        Seq::empty()
    } else {
        let rest = words(s.drop_last());
        if is_space(s.last()) {
            rest
        } else if s.len() >= 2 && !is_space(s[s.len() - 2]) {
            rest.update(rest.len() - 1, rest.last().push(s.last()))
        } else {
            rest.push(seq![s.last()])
        }
    }
}

pub fn words_of(s: &[char]) -> (out: Vec<Vec<char>>)
    ensures
        views(out@) == words(s@),
{
    let mut done: Vec<Vec<char>> = Vec::new();
    let mut word: Vec<char> = Vec::new();
    let mut i: usize = 0;
    assert(s@.take(0) == Seq::<char>::empty());
    assert(views(done@) == words(s@.take(0)));
    while i < s.len()
        invariant
            i <= s.len(),
            word@.len() == 0 ==> views(done@) == words(s@.take(i as int)),
            word@.len() > 0 ==> views(done@).push(word@) == words(s@.take(i as int)),
            word@.len() > 0 <==> i > 0 && !is_space(s@[i - 1]),
        decreases s.len() - i,
    {
        let c = s[i];
        let ghost next = s@.take(i + 1);
        assert(next.drop_last() == s@.take(i as int));
        if space(c) {
            if word.len() > 0 {
                let ghost was = done@;
                done.push(word);
                assert(views(done@) == views(was).push(word@));
                word = Vec::new();
            }
        } else {
            let ghost rest = words(s@.take(i as int));
            let ghost old_word = word@;
            word.push(c);
            proof {
                if old_word.len() > 0 {
                    assert(next[next.len() - 2] == s@[i - 1]);
                    assert(rest.update(rest.len() - 1, rest.last().push(c)) == views(done@).push(
                        word@,
                    ));
                } else {
                    assert(word@ == seq![c]);
                    if i > 0 {
                        assert(next[next.len() - 2] == s@[i - 1]);
                    }
                }
            }
        }
        i += 1;
    }
    assert(s@.take(s@.len() as int) == s@);
    if word.len() > 0 {
        let ghost was = done@;
        done.push(word);
        assert(views(done@) == views(was).push(word@));
    }
    done
}

/// The texts `parts` with `sep` between each two of them.
pub open spec fn join(parts: Seq<Seq<char>>, sep: Seq<char>) -> Seq<char>
    decreases parts.len(),
{
    if parts.len() == 0 {
        Seq::empty()
    } else if parts.len() == 1 {
        parts[0]
    } else {
        join(parts.drop_last(), sep) + sep + parts.last()
    }
}

pub fn joined(parts: &[Vec<char>], sep: &[char]) -> (out: Vec<char>)
    ensures
        out@ == join(views(parts@), sep@),
{
    let mut out: Vec<char> = Vec::new();
    let mut i: usize = 0;
    while i < parts.len()
        invariant
            i <= parts.len(),
            out@ == join(views(parts@).take(i as int), sep@),
        decreases parts.len() - i,
    {
        let ghost all = views(parts@);
        assert(all.take(i + 1).drop_last() == all.take(i as int));
        if i > 0 {
            append(&mut out, sep);
        }
        append(&mut out, parts[i].as_slice());
        assert(all.take(i + 1).last() == parts@[i as int]@);
        assert(out@ == join(all.take(i + 1), sep@));
        i += 1;
    }
    assert(views(parts@).take(parts@.len() as int) == views(parts@));
    out
}

/// `s` with each occurrence of `from`, found from left to right without overlap, written as `to`.
pub open spec fn replace(s: Seq<char>, from: Seq<char>, to: Seq<char>) -> Seq<char>
    decreases s.len(),
{
    if from.len() == 0 || s.len() < from.len() {
        s
    } else if starts(s, from) {
        to + replace(s.skip(from.len() as int), from, to)
    } else {
        seq![s[0]] + replace(s.skip(1), from, to)
    }
}

pub fn replaced(s: &[char], from: &[char], to: &[char]) -> (out: Vec<char>)
    ensures
        out@ == replace(s@, from@, to@),
{
    let mut out: Vec<char> = Vec::new();
    let mut i: usize = 0;
    assert(s@.skip(0) == s@);
    if from.len() == 0 {
        append(&mut out, s);
        return out;
    }
    while s.len() - i >= from.len()
        invariant
            i <= s@.len(),
            from@.len() > 0,
            out@ + replace(s@.skip(i as int), from@, to@) == replace(s@, from@, to@),
        decreases s.len() - i,
    {
        let ghost rest = s@.skip(i as int);
        if found_at(s, from, i) {
            let ghost was = out@;
            append(&mut out, to);
            assert(rest.skip(from@.len() as int) == s@.skip(i + from@.len()));
            assert(was + (to@ + replace(rest.skip(from@.len() as int), from@, to@)) == (was + to@)
                + replace(rest.skip(from@.len() as int), from@, to@));
            i += from.len();
        } else {
            let ghost was = out@;
            out.push(s[i]);
            assert(rest.skip(1) == s@.skip(i + 1));
            assert(was + (seq![rest[0]] + replace(rest.skip(1), from@, to@)) == was.push(rest[0])
                + replace(rest.skip(1), from@, to@));
            i += 1;
        }
    }
    let tail = slice_of(s, i, s.len());
    assert(s@.skip(i as int) == s@.subrange(i as int, s@.len() as int));
    append(&mut out, tail.as_slice());
    out
}

/// The number that the decimal digits `s` write.
pub open spec fn digits_value(s: Seq<char>) -> nat
    decreases s.len(),
{
    if s.len() == 0 {
        0
    } else {
        digits_value(s.drop_last()) * 10 + (s.last() as nat - '0' as nat) as nat
    }
}

pub open spec fn all_digits(s: Seq<char>) -> bool {
    forall|i: int| 0 <= i < s.len() ==> is_digit(#[trigger] s[i])
}

/// The number that `s` writes in decimal: one digit or more, after an optional plus sign, with a
/// value of at most `max`.
pub open spec fn parsed_number(s: Seq<char>, max: nat) -> Option<nat> {
    let digits = if s.len() > 1 && s[0] == '+' {
        s.skip(1)
    } else {
        s
    };
    if digits.len() > 0 && all_digits(digits) && digits_value(digits) <= max {
        Some(digits_value(digits))
    } else {
        None
    }
}

proof fn digits_value_grows(s: Seq<char>, i: int)
    requires
        0 <= i <= s.len(),
        all_digits(s),
    ensures
        digits_value(s.take(i)) <= digits_value(s),
    decreases s.len() - i,
{
    if i < s.len() {
        digits_value_grows(s, i + 1);
        assert(s.take(i + 1).drop_last() == s.take(i));
        assert(is_digit(s[i]));
    } else {
        assert(s.take(i) == s);
    }
}

pub fn number_of(s: &[char], max: u64) -> (r: Option<u64>)
    ensures
        match r {
            Some(n) => parsed_number(s@, max as nat) == Some(n as nat),
            None => parsed_number(s@, max as nat) is None,
        },
{
    let start: usize = if s.len() > 1 && s[0] == '+' {
        1
    } else {
        0
    };
    let ghost digits = s@.skip(start as int);
    assert(start == 0 ==> digits == s@);
    if s.len() == start {
        return None;
    }
    let mut n: u64 = 0;
    let mut i: usize = start;
    assert(digits.take(0) == Seq::<char>::empty());
    while i < s.len()
        invariant
            start <= i <= s@.len(),
            start <= 1,
            digits == s@.skip(start as int),
            start == 0 ==> digits == s@,
            start == 1 <==> s@.len() > 1 && s@[0] == '+',
            start < s@.len(),
            n <= max,
            n == digits_value(digits.take(i - start)),
            forall|j: int| 0 <= j < i - start ==> is_digit(#[trigger] digits[j]),
        decreases s.len() - i,
    {
        let c = s[i];
        assert(digits[i - start] == c);
        if !digit(c) {
            assert(!all_digits(digits));
            return None;
        }
        let d: u64 = (c as u32 - '0' as u32) as u64;
        assert(digits.take(i - start + 1).drop_last() == digits.take(i - start));
        assert(digits_value(digits.take(i - start + 1)) == n * 10 + d);
        if d > max || n > (max - d) / 10 {
            proof {
                if all_digits(digits) {
                    digits_value_grows(digits, i - start + 1);
                }
            }
            return None;
        }
        n = n * 10 + d;
        i += 1;
    }
    assert(digits.take(i - start) == digits);
    Some(n)
}

/// The decimal digits of `n`, without leading zeros.
pub open spec fn decimal(n: nat) -> Seq<char>
    decreases n,
{
    if n < 10 {
        seq![('0' as nat + n) as char]
    } else {
        decimal(n / 10).push(('0' as nat + n % 10) as char)
    }
}

pub fn decimal_of(n: u64) -> (out: Vec<char>)
    ensures
        out@ == decimal(n as nat),
    decreases n,
{
    if n < 10 {
        let mut out: Vec<char> = Vec::new();
        out.push(digit_char(n));
        assert(out@ == decimal(n as nat));
        out
    } else {
        let mut out = decimal_of(n / 10);
        out.push(digit_char(n % 10));
        out
    }
}

fn digit_char(d: u64) -> (c: char)
    requires
        d < 10,
    ensures
        c == ('0' as nat + d) as char,
{
    match d {
        0 => '0',
        1 => '1',
        2 => '2',
        3 => '3',
        4 => '4',
        5 => '5',
        6 => '6',
        7 => '7',
        8 => '8',
        _ => '9',
    }
}

/// `s` without the copies of `p` at its start.
pub open spec fn strip_starts(s: Seq<char>, p: Seq<char>) -> Seq<char>
    decreases s.len(),
{
    if p.len() > 0 && starts(s, p) {
        strip_starts(s.skip(p.len() as int), p)
    } else {
        s
    }
}

/// `s` without the copies of `p` at its end.
pub open spec fn strip_ends(s: Seq<char>, p: Seq<char>) -> Seq<char>
    decreases s.len(),
{
    if p.len() > 0 && ends(s, p) {
        strip_ends(s.take(s.len() - p.len()), p)
    } else {
        s
    }
}

pub fn stripped_starts(s: &[char], p: &[char]) -> (out: Vec<char>)
    ensures
        out@ == strip_starts(s@, p@),
{
    let mut at: usize = 0;
    let n: usize = s.len();
    assert(s@.skip(0) == s@);
    while p.len() > 0 && found_at(s, p, at)
        invariant
            at <= s@.len(),
            n == s@.len(),
            strip_starts(s@, p@) == strip_starts(s@.skip(at as int), p@),
        decreases s@.len() - at,
    {
        assert(s@.skip(at as int).skip(p@.len() as int) == s@.skip(at + p@.len()));
        at += p.len();
    }
    assert(s@.skip(at as int) == s@.subrange(at as int, s@.len() as int));
    slice_of(s, at, s.len())
}

pub fn stripped_ends(s: &[char], p: &[char]) -> (out: Vec<char>)
    ensures
        out@ == strip_ends(s@, p@),
{
    let mut end: usize = s.len();
    assert(s@.take(end as int) == s@);
    loop
        invariant
            end <= s@.len(),
            strip_ends(s@, p@) == strip_ends(s@.take(end as int), p@),
        decreases end,
    {
        let ghost now = s@.take(end as int);
        if p.len() == 0 || end < p.len() || !found_at(s, p, end - p.len()) {
            proof {
                if p@.len() > 0 && p@.len() <= end {
                    assert(now.skip(end - p@.len()) == s@.skip(end - p@.len()).take(
                        p@.len() as int,
                    ));
                }
            }
            assert(s@.take(end as int) == s@.subrange(0, end as int));
            return slice_of(s, 0, end);
        }
        assert(now.skip(end - p@.len()) == s@.skip(end - p@.len()).take(p@.len() as int));
        assert(now.take(end - p@.len()) == s@.take(end - p@.len()));
        end -= p.len();
    }
}

/// `s` without the prefix `p`, where it begins with it.
pub open spec fn strip_prefix(s: Seq<char>, p: Seq<char>) -> Option<Seq<char>> {
    if starts(s, p) {
        Some(s.skip(p.len() as int))
    } else {
        None
    }
}

pub open spec fn chars_option(v: Option<Vec<char>>) -> Option<Seq<char>> {
    match v {
        Some(c) => Some(c@),
        None => None,
    }
}

pub fn stripped_prefix(s: &[char], p: &[char]) -> (r: Option<Vec<char>>)
    ensures
        chars_option(r) == strip_prefix(s@, p@),
{
    if starts_with(s, p) {
        let rest = slice_of(s, p.len(), s.len());
        assert(rest@ == s@.skip(p@.len() as int));
        Some(rest)
    } else {
        None
    }
}

/// What stands before and after the first occurrence of `p` in `s`.
pub open spec fn split_once(s: Seq<char>, p: Seq<char>) -> Option<(Seq<char>, Seq<char>)> {
    match find(s, p) {
        Some(at) => Some((s.take(at), s.skip(at + p.len()))),
        None => None,
    }
}

pub open spec fn pair_option(v: Option<(Vec<char>, Vec<char>)>) -> Option<(Seq<char>, Seq<char>)> {
    match v {
        Some((a, b)) => Some((a@, b@)),
        None => None,
    }
}

pub fn halves(s: &[char], p: &[char]) -> (r: Option<(Vec<char>, Vec<char>)>)
    ensures
        pair_option(r) == split_once(s@, p@),
{
    match find_at(s, p, 0) {
        Some(at) => {
            let before = slice_of(s, 0, at);
            assert(s@.len() == s.len());
            let after = slice_of(s, at + p.len(), s.len());
            assert(before@ == s@.take(at as int));
            assert(after@ == s@.skip(at + p@.len()));
            Some((before, after))
        },
        None => None,
    }
}

/// The last position of the character `c` in `s`.
pub open spec fn last_at(s: Seq<char>, c: char) -> Option<int>
    decreases s.len(),
{
    if s.len() == 0 {
        None
    } else if s.last() == c {
        Some(s.len() - 1)
    } else {
        last_at(s.drop_last(), c)
    }
}

/// What stands before and after the last occurrence of `c` in `s`.
pub open spec fn split_last(s: Seq<char>, c: char) -> Option<(Seq<char>, Seq<char>)> {
    match last_at(s, c) {
        Some(at) => Some((s.take(at), s.skip(at + 1))),
        None => None,
    }
}

pub fn last_halves(s: &[char], c: char) -> (r: Option<(Vec<char>, Vec<char>)>)
    ensures
        pair_option(r) == split_last(s@, c),
{
    let mut n: usize = s.len();
    assert(s@.take(n as int) == s@);
    while n > 0
        invariant
            n <= s@.len(),
            last_at(s@, c) == last_at(s@.take(n as int), c),
        decreases n,
    {
        if s[n - 1] == c {
            let before = slice_of(s, 0, n - 1);
            let after = slice_of(s, n, s.len());
            assert(before@ == s@.take(n - 1));
            assert(after@ == s@.skip(n as int));
            return Some((before, after));
        }
        assert(s@.take(n as int).drop_last() == s@.take(n - 1));
        n -= 1;
    }
    None
}

/// The number that `s` writes in decimal, with an optional sign, in the range of `i64`.
pub open spec fn parsed_signed(s: Seq<char>) -> Option<int> {
    if s.len() > 1 && s[0] == '-' {
        let digits = s.skip(1);
        if all_digits(digits) && digits_value(digits) <= 0x8000_0000_0000_0000 {
            Some(-(digits_value(digits) as int))
        } else {
            None
        }
    } else {
        match parsed_number(s, 0x7fff_ffff_ffff_ffff) {
            Some(n) => Some(n as int),
            None => None,
        }
    }
}

pub fn signed_number(s: &[char]) -> (r: Option<i64>)
    ensures
        match r {
            Some(n) => parsed_signed(s@) == Some(n as int),
            None => parsed_signed(s@) is None,
        },
{
    if s.len() > 1 && s[0] == '-' {
        let digits = slice_of(s, 1, s.len());
        assert(digits@ == s@.skip(1));
        if digits[0] == '+' {
            assert(!is_digit(digits@[0]));
            return None;
        }
        match number_of(digits.as_slice(), 0x8000_0000_0000_0000) {
            Some(n) => if n == 0x8000_0000_0000_0000 {
                Some(i64::MIN)
            } else {
                Some(-(n as i64))
            },
            None => None,
        }
    } else {
        match number_of(s, 0x7fff_ffff_ffff_ffff) {
            Some(n) => Some(n as i64),
            None => None,
        }
    }
}

/// The number of bytes of a character in UTF-8.
pub open spec fn width(c: char) -> nat {
    if c <= '\u{7f}' {
        1
    } else if c <= '\u{7ff}' {
        2
    } else if c <= '\u{ffff}' {
        3
    } else {
        4
    }
}

pub fn char_width(c: char) -> (r: usize)
    ensures
        r == width(c),
{
    if c <= '\u{7f}' {
        1
    } else if c <= '\u{7ff}' {
        2
    } else if c <= '\u{ffff}' {
        3
    } else {
        4
    }
}

/// The number of bytes of a text in UTF-8.
pub open spec fn byte_length(s: Seq<char>) -> nat
    decreases s.len(),
{
    if s.len() == 0 {
        0
    } else {
        byte_length(s.drop_last()) + width(s.last())
    }
}

/// The number of characters from the start of `s` that fit into `limit` bytes.
pub open spec fn fitting(s: Seq<char>, limit: nat) -> nat
    decreases s.len(),
{
    if byte_length(s) <= limit || s.len() == 0 {
        s.len()
    } else {
        fitting(s.drop_last(), limit)
    }
}

/// How many characters of a prefix fit is known from the first that does not.
proof fn fitting_prefix(s: Seq<char>, limit: nat, n: int)
    requires
        0 <= n < s.len(),
        byte_length(s.take(n)) <= limit,
        byte_length(s.take(n + 1)) > limit,
    ensures
        fitting(s, limit) == n,
    decreases s.len(),
{
    if s.len() == n + 1 {
        assert(s.take(n + 1) == s);
        assert(s.drop_last() == s.take(n));
        assert(fitting(s, limit) == fitting(s.take(n), limit));
        assert(fitting(s.take(n), limit) == n);
    } else {
        byte_length_grows(s, n + 1);
        let t = s.drop_last();
        assert(t.take(n) == s.take(n));
        assert(t.take(n + 1) == s.take(n + 1));
        fitting_prefix(t, limit, n);
    }
}

proof fn byte_length_grows(s: Seq<char>, n: int)
    requires
        0 <= n <= s.len(),
    ensures
        byte_length(s.take(n)) <= byte_length(s),
    decreases s.len(),
{
    if n < s.len() {
        byte_length_grows(s.drop_last(), n);
        assert(s.drop_last().take(n) == s.take(n));
    } else {
        assert(s.take(n) == s);
    }
}

/// The longest start of `s` that fits into `limit` bytes, by its number of characters; all of `s`
/// where it fits.
pub fn fit(s: &[char], limit: usize) -> (r: usize)
    requires
        limit <= 0xffff_ffff - 4,
    ensures
        r == fitting(s@, limit as nat),
        r <= s@.len(),
        r == s@.len() <==> byte_length(s@) <= limit,
{
    let mut n: usize = 0;
    let mut used: usize = 0;
    assert(s@.take(0) == Seq::<char>::empty());
    while n < s.len()
        invariant
            n <= s@.len(),
            limit <= 0xffff_ffff - 4,
            used == byte_length(s@.take(n as int)),
            used <= limit,
        decreases s@.len() - n,
    {
        let w: usize = char_width(s[n]);
        assert(s@.take(n + 1).drop_last() == s@.take(n as int));
        if used + w > limit {
            proof {
                fitting_prefix(s@, limit as nat, n as int);
                byte_length_grows(s@, n + 1);
            }
            return n;
        }
        used = used + w;
        n += 1;
    }
    assert(s@.take(n as int) == s@);
    n
}

/// Two texts one after the other.
pub fn glue2(a: &str, b: &str) -> (r: String)
    ensures
        r@ == a@ + b@,
{
    let mut out = chars_of(a);
    append_str(&mut out, b);
    string_of(out.as_slice())
}

/// Three texts one after the other.
pub fn glue3(a: &str, b: &str, c: &str) -> (r: String)
    ensures
        r@ == a@ + b@ + c@,
{
    let mut out = chars_of(a);
    append_str(&mut out, b);
    append_str(&mut out, c);
    string_of(out.as_slice())
}

/// Five texts one after the other.
pub fn glue5(a: &str, b: &str, c: &str, d: &str, e: &str) -> (r: String)
    ensures
        r@ == a@ + b@ + c@ + d@ + e@,
{
    let mut out = chars_of(a);
    append_str(&mut out, b);
    append_str(&mut out, c);
    append_str(&mut out, d);
    append_str(&mut out, e);
    string_of(out.as_slice())
}

/// What stands before the first `c` in `s`, or all of `s` without one.
pub open spec fn before_char(s: Seq<char>, c: char) -> Seq<char>
    decreases s.len(),
{
    if s.len() == 0 || s[0] == c {
        Seq::empty()
    } else {
        seq![s[0]] + before_char(s.skip(1), c)
    }
}

pub fn cut_before(s: &[char], c: char) -> (out: Vec<char>)
    ensures
        out@ == before_char(s@, c),
{
    let mut out: Vec<char> = Vec::new();
    let mut i: usize = 0;
    assert(s@.skip(0) == s@);
    while i < s.len() && s[i] != c
        invariant
            i <= s@.len(),
            out@ + before_char(s@.skip(i as int), c) == before_char(s@, c),
        decreases s.len() - i,
    {
        let ghost rest = s@.skip(i as int);
        let ghost was = out@;
        out.push(s[i]);
        assert(rest.skip(1) == s@.skip(i + 1));
        assert(was + (seq![rest[0]] + before_char(rest.skip(1), c)) == was.push(rest[0])
            + before_char(rest.skip(1), c));
        i += 1;
    }
    out
}

/// `std::str::from_utf8` accepts exactly the bytes that are UTF-8, and gives the text that they
/// encode.
#[verifier::external_body]
pub(crate) fn text_from_bytes(bytes: &[u8]) -> (r: Option<String>)
    ensures
        match r {
            Some(s) => vstd::utf8::valid_utf8(bytes@) && s@ == vstd::utf8::decode_utf8(bytes@),
            None => !vstd::utf8::valid_utf8(bytes@),
        },
{
    std::str::from_utf8(bytes).ok().map(|s| s.to_owned())
}

/// The text of some bytes that are not UTF-8, with a replacement for what is wrong.
pub uninterp spec fn repaired_text(bytes: Seq<u8>) -> Seq<char>;

/// The text of some bytes, with a replacement for what is not UTF-8.
pub open spec fn lossy_text(bytes: Seq<u8>) -> Seq<char> {
    if vstd::utf8::valid_utf8(bytes) {
        vstd::utf8::decode_utf8(bytes)
    } else {
        repaired_text(bytes)
    }
}

/// `String::from_utf8_lossy`: the text is the one that the bytes encode where they are UTF-8, and
/// depends on the bytes alone where they are not.
#[verifier::external_body]
pub(crate) fn text_from_lossy(bytes: &[u8]) -> (r: String)
    ensures
        vstd::utf8::valid_utf8(bytes@) ==> r@ == vstd::utf8::decode_utf8(bytes@),
        !vstd::utf8::valid_utf8(bytes@) ==> r@ == repaired_text(bytes@),
{
    String::from_utf8_lossy(bytes).into_owned()
}

/// What stands before the first white space in `s`, or all of `s` without any.
pub open spec fn first_word(s: Seq<char>) -> Seq<char>
    decreases s.len(),
{
    if s.len() == 0 || is_space(s[0]) {
        Seq::empty()
    } else {
        seq![s[0]] + first_word(s.skip(1))
    }
}

/// A first word is no longer than its text, and what follows it begins with white space.
pub proof fn first_word_ends(s: Seq<char>)
    ensures
        first_word(s).len() <= s.len(),
        first_word(s) == s.take(first_word(s).len() as int),
        first_word(s).len() < s.len() ==> is_space(s[first_word(s).len() as int]),
    decreases s.len(),
{
    if s.len() > 0 && !is_space(s[0]) {
        first_word_ends(s.skip(1));
        let rest = first_word(s.skip(1));
        assert(seq![s[0]] + rest == s.take((rest.len() + 1) as int));
    }
}

/// The first word of `s`, and what follows the character after it, where there is one.
pub fn word_and_rest(s: &[char]) -> (r: (Vec<char>, Option<Vec<char>>))
    ensures
        r.0@ == first_word(s@),
        chars_option(r.1) == (if first_word(s@).len() < s@.len() {
            Some(s@.skip((first_word(s@).len() + 1) as int))
        } else {
            None::<Seq<char>>
        }),
{
    let mut i: usize = 0;
    assert(s@.skip(0) == s@);
    proof {
        first_word_ends(s@);
    }
    while i < s.len() && !space(s[i])
        invariant
            i <= s@.len(),
            first_word(s@).len() == i + first_word(s@.skip(i as int)).len(),
        decreases s.len() - i,
    {
        assert(s@.skip(i as int).skip(1) == s@.skip(i + 1));
        i += 1;
    }
    let word = slice_of(s, 0, i);
    assert(s@.subrange(0, i as int) == s@.take(i as int));
    if i < s.len() {
        let rest = slice_of(s, i + 1, s.len());
        assert(rest@ == s@.skip(i + 1));
        (word, Some(rest))
    } else {
        (word, None)
    }
}

pub open spec fn is_hex(c: char) -> bool {
    is_digit(c) || ('a' <= c <= 'f') || ('A' <= c <= 'F')
}

pub open spec fn all_hex(s: Seq<char>) -> bool {
    forall|i: int| 0 <= i < s.len() ==> is_hex(#[trigger] s[i])
}

pub fn hex_only(s: &[char]) -> (r: bool)
    ensures
        r == all_hex(s@),
{
    let mut i: usize = 0;
    while i < s.len()
        invariant
            i <= s@.len(),
            forall|j: int| 0 <= j < i ==> is_hex(#[trigger] s@[j]),
        decreases s.len() - i,
    {
        let c = s[i];
        if !(digit(c) || ('a' <= c && c <= 'f') || ('A' <= c && c <= 'F')) {
            return false;
        }
        i += 1;
    }
    true
}

pub fn digits_only(s: &[char]) -> (r: bool)
    ensures
        r == all_digits(s@),
{
    let mut i: usize = 0;
    while i < s.len()
        invariant
            i <= s@.len(),
            forall|j: int| 0 <= j < i ==> is_digit(#[trigger] s@[j]),
        decreases s.len() - i,
    {
        if !digit(s[i]) {
            return false;
        }
        i += 1;
    }
    true
}

/// `s` without the white space at its start.
pub fn trimmed_start(s: &[char]) -> (out: Vec<char>)
    ensures
        out@ == trim_start(s@),
{
    let mut start: usize = 0;
    assert(s@.skip(0) == s@);
    while start < s.len() && space(s[start])
        invariant
            start <= s@.len(),
            trim_start(s@.skip(start as int)) == trim_start(s@),
        decreases s.len() - start,
    {
        assert(s@.skip(start as int).skip(1) == s@.skip(start + 1));
        start += 1;
    }
    assert(s@.skip(start as int) == s@.subrange(start as int, s@.len() as int));
    slice_of(s, start, s.len())
}

/// An integer in decimal notation, a negative one with its sign.
pub open spec fn signed_decimal(n: int) -> Seq<char> {
    if n < 0 {
        seq!['-'] + decimal((-n) as nat)
    } else {
        decimal(n as nat)
    }
}

pub fn signed_decimal_of(n: i64) -> (out: Vec<char>)
    ensures
        out@ == signed_decimal(n as int),
{
    if n < 0 {
        let mut out: Vec<char> = Vec::new();
        out.push('-');
        let size: u64 = (-((n + 1) as i128) + 1) as u64;
        let digits = decimal_of(size);
        append(&mut out, digits.as_slice());
        assert(out@ == seq!['-'] + digits@);
        out
    } else {
        decimal_of(n as u64)
    }
}

/// A text cut after some characters, with a mark where something was cut off.
pub open spec fn shortened(s: Seq<char>, limit: nat) -> Seq<char> {
    if s.len() > limit {
        s.take(limit as int).push('…')
    } else {
        s
    }
}

pub fn shorten(s: &[char], limit: usize) -> (out: Vec<char>)
    ensures
        out@ == shortened(s@, limit as nat),
{
    if s.len() > limit {
        let mut out = slice_of(s, 0, limit);
        out.push('…');
        assert(out@ == s@.take(limit as int).push('…'));
        out
    } else {
        let out = slice_of(s, 0, s.len());
        assert(out@ == s@);
        out
    }
}

/// What stands in `s` before the end `p`, where `s` ends with it.
pub open spec fn strip_suffix(s: Seq<char>, p: Seq<char>) -> Option<Seq<char>> {
    if ends(s, p) {
        Some(s.take(s.len() - p.len()))
    } else {
        None
    }
}

pub fn stripped_suffix(s: &[char], p: &[char]) -> (r: Option<Vec<char>>)
    ensures
        chars_option(r) == strip_suffix(s@, p@),
{
    if ends_with(s, p) {
        let out = slice_of(s, 0, s.len() - p.len());
        assert(out@ == s@.take(s@.len() - p@.len()));
        Some(out)
    } else {
        None
    }
}

} // verus!
