//! The shape of a statement: what is left of a digest once lists of placeholders are collapsed.
use crate::text::{
    append, append_str, chars_of, is_alnum, is_space, join, joined, slice_of, space, string_of,
    words, words_of,
};
use vstd::prelude::*;

verus! {

/// Whether a character is alphabetic or numeric by its Unicode properties.
pub uninterp spec fn unicode_alphanumeric(c: char) -> bool;

/// `char::is_alphanumeric` depends on the character alone; of the ASCII characters it accepts the
/// letters and the digits.
pub assume_specification[ char::is_alphanumeric ](c: char) -> (r: bool)
    ensures
        r == unicode_alphanumeric(c),
        c <= '\u{7f}' ==> r == is_alnum(c),
;

/// The lowercase mapping of a character.
pub uninterp spec fn unicode_lowercase(c: char) -> Seq<char>;

/// The lowercase of an ASCII letter; other characters stay.
pub open spec fn ascii_lower(c: char) -> char {
    if 'A' <= c <= 'Z' {
        (c as u32 + 32) as char
    } else {
        c
    }
}

/// `char::to_lowercase` depends on the character alone; an ASCII character maps to one character,
/// an uppercase letter to its lowercase and every other one to itself.
#[verifier::external_body]
pub(crate) fn lowercase(c: char) -> (r: Vec<char>)
    ensures
        r@ == unicode_lowercase(c),
        c <= '\u{7f}' ==> r@ == seq![ascii_lower(c)],
{
    c.to_lowercase().collect()
}

/// A letter or a digit of any script.
pub open spec fn alphanumeric(c: char) -> bool {
    if c <= '\u{7f}' {
        is_alnum(c)
    } else {
        unicode_alphanumeric(c)
    }
}

/// The lowercase of a character of any script.
pub open spec fn lowercase_of(c: char) -> Seq<char> {
    if c <= '\u{7f}' {
        seq![ascii_lower(c)]
    } else {
        unicode_lowercase(c)
    }
}

/// A character that may stand in an identifier.
pub open spec fn identifier(c: char) -> bool {
    alphanumeric(c) || c == '_'
}

fn is_identifier(c: char) -> (r: bool)
    ensures
        r == identifier(c),
{
    c.is_alphanumeric() || c == '_'
}

/// The first position from `i` on that holds no white space.
pub open spec fn after_space(s: Seq<char>, i: int) -> int
    decreases s.len() - i,
{
    if 0 <= i < s.len() && is_space(s[i]) {
        after_space(s, i + 1)
    } else {
        i
    }
}

pub proof fn after_space_advances(s: Seq<char>, i: int)
    requires
        0 <= i <= s.len(),
    ensures
        i <= after_space(s, i) <= s.len(),
    decreases s.len() - i,
{
    if i < s.len() && is_space(s[i]) {
        after_space_advances(s, i + 1);
    }
}

pub open spec fn char_at(s: Seq<char>, i: int, c: char) -> bool {
    0 <= i < s.len() && s[i] == c
}

/// Reads placeholders with commas between them up to a closing bracket: where that ends, and how
/// many placeholders there are.
pub open spec fn placeholders(s: Seq<char>, i: int) -> Option<(int, nat)>
    decreases s.len() - i,
    when 0 <= i <= s.len()
{
    let a = after_space(s, i);
    proof {
        after_space_advances(s, i);
    }
    if !char_at(s, a, '?') {
        None
    } else {
        let b = after_space(s, a + 1);
        proof {
            after_space_advances(s, a + 1);
        }
        if char_at(s, b, ',') {
            match placeholders(s, b + 1) {
                Some((end, n)) => Some((end, n + 1)),
                None => None,
            }
        } else if char_at(s, b, ')') {
            Some((b + 1, 1))
        } else {
            None
        }
    }
}

proof fn placeholders_advance(s: Seq<char>, i: int)
    requires
        0 <= i <= s.len(),
    ensures
        placeholders(s, i) matches Some((end, n)) ==> i < end <= s.len() && n <= end - i,
    decreases s.len() - i,
{
    after_space_advances(s, i);
    let a = after_space(s, i);
    if char_at(s, a, '?') {
        after_space_advances(s, a + 1);
        let b = after_space(s, a + 1);
        if char_at(s, b, ',') {
            placeholders_advance(s, b + 1);
        }
    }
}

/// A bracketed list of placeholders at position `i`.
pub open spec fn tuple_at(s: Seq<char>, i: int) -> Option<(int, nat)> {
    if char_at(s, i, '(') {
        placeholders(s, i + 1)
    } else {
        None
    }
}

pub proof fn tuple_advances(s: Seq<char>, i: int)
    requires
        0 <= i <= s.len(),
    ensures
        tuple_at(s, i) matches Some((end, n)) ==> i < end <= s.len(),
{
    if char_at(s, i, '(') {
        placeholders_advance(s, i + 1);
    }
}

/// Characters that a list of placeholders that was cut off may end with.
pub open spec fn list_char(c: char) -> bool {
    is_space(c) || c == '(' || c == ')' || c == ',' || c == '?'
}

pub open spec fn only_list_chars(s: Seq<char>, from: int) -> bool {
    from < s.len() && forall|i: int| from <= i < s.len() ==> list_char(#[trigger] s[i])
}

/// Where the tuples end that follow one of arity `arity` which ended at `end`; none where one of
/// another arity follows, or what follows the comma is no list of placeholders. A list that was
/// cut off reaches to the end of the text.
pub open spec fn tuples_end(s: Seq<char>, end: int, arity: nat) -> Option<int>
    decreases s.len() - end,
    when 0 <= end <= s.len()
{
    let next = after_space(s, end);
    proof {
        after_space_advances(s, end);
    }
    if !char_at(s, next, ',') {
        Some(end)
    } else {
        let open = after_space(s, next + 1);
        proof {
            after_space_advances(s, next + 1);
            tuple_advances(s, open);
        }
        match tuple_at(s, open) {
            None => if only_list_chars(s, open) {
                Some(s.len() as int)
            } else {
                None
            },
            Some((e, n)) => if n != arity {
                None
            } else {
                tuples_end(s, e, arity)
            },
        }
    }
}

proof fn tuples_end_advances(s: Seq<char>, end: int, arity: nat)
    requires
        0 <= end <= s.len(),
    ensures
        tuples_end(s, end, arity) matches Some(e) ==> end <= e <= s.len(),
    decreases s.len() - end,
{
    after_space_advances(s, end);
    let next = after_space(s, end);
    if char_at(s, next, ',') {
        after_space_advances(s, next + 1);
        let open = after_space(s, next + 1);
        tuple_advances(s, open);
        if let Some((e, n)) = tuple_at(s, open) {
            if n == arity {
                tuples_end_advances(s, e, arity);
            }
        }
    }
}

/// The letters of `lower`, in either case, stand at position `i`.
pub open spec fn word_at(s: Seq<char>, i: int, lower: Seq<char>, upper: Seq<char>) -> bool {
    &&& 0 <= i
    &&& i + lower.len() <= s.len()
    &&& forall|j: int|
        0 <= j < lower.len() ==> s[i + j] == #[trigger] lower[j] || s[i + j] == upper[j]
}

/// No character next to the word of `n` letters at position `i` belongs to an identifier.
pub open spec fn stands_alone(s: Seq<char>, i: int, n: int) -> bool {
    &&& i > 0 ==> !identifier(s[i - 1])
    &&& i + n < s.len() ==> !identifier(s[i + n])
}

/// Where `values` with one or more tuples of placeholders at position `i` ends.
pub open spec fn values_at(s: Seq<char>, i: int) -> Option<int> {
    if word_at(s, i, "values"@, "VALUES"@) && stands_alone(s, i, 6) {
        match tuple_at(s, after_space(s, i + 6)) {
            Some((end, n)) => tuples_end(s, end, n),
            None => None,
        }
    } else {
        None
    }
}

/// Where `in` with a list of placeholders at position `i` ends.
pub open spec fn in_at(s: Seq<char>, i: int) -> Option<int> {
    if word_at(s, i, "in"@, "IN"@) && stands_alone(s, i, 2) {
        match tuple_at(s, after_space(s, i + 2)) {
            Some((end, n)) => Some(end),
            None => None,
        }
    } else {
        None
    }
}

proof fn words_have_letters()
    ensures
        "values"@.len() == 6,
        "VALUES"@.len() == 6,
        "in"@.len() == 2,
        "IN"@.len() == 2,
{
    reveal_strlit("values");
    reveal_strlit("VALUES");
    reveal_strlit("in");
    reveal_strlit("IN");
}

pub proof fn lists_advance(s: Seq<char>, i: int)
    requires
        0 <= i <= s.len(),
    ensures
        values_at(s, i) matches Some(end) ==> i < end <= s.len(),
        in_at(s, i) matches Some(end) ==> i < end <= s.len(),
{
    words_have_letters();
    if values_at(s, i) is Some {
        after_space_advances(s, i + 6);
        let a = after_space(s, i + 6);
        tuple_advances(s, a);
        let (end, n) = tuple_at(s, a)->0;
        tuples_end_advances(s, end, n);
    }
    if in_at(s, i) is Some {
        after_space_advances(s, i + 2);
        tuple_advances(s, after_space(s, i + 2));
    }
}

/// The text from position `i` on, in lowercase, with lists of placeholders collapsed.
pub open spec fn collapsed(s: Seq<char>, i: int) -> Seq<char>
    decreases s.len() - i,
    when 0 <= i <= s.len()
{
    proof {
        lists_advance(s, i);
    }
    if i >= s.len() {
        Seq::empty()
    } else {
        match values_at(s, i) {
            Some(end) => "values (?tuple+)"@ + collapsed(s, end),
            None => match in_at(s, i) {
                Some(end) => "in (?+)"@ + collapsed(s, end),
                None => lowercase_of(s[i]) + collapsed(s, i + 1),
            },
        }
    }
}

/// The shape of a digest: its collapsed text with one blank between words.
pub open spec fn shape_of(digest: Seq<char>) -> Seq<char> {
    join(words(collapsed(digest, 0)), " "@)
}

fn skip_space(s: &[char], i: usize) -> (r: usize)
    requires
        i <= s@.len(),
    ensures
        r == after_space(s@, i as int),
        i <= r <= s@.len() <= usize::MAX,
{
    let mut at: usize = i;
    while at < s.len() && space(s[at])
        invariant
            i <= at <= s@.len(),
            after_space(s@, i as int) == after_space(s@, at as int),
        decreases s.len() - at,
    {
        at += 1;
    }
    at
}

fn holds_char(s: &[char], i: usize, c: char) -> (r: bool)
    ensures
        r == char_at(s@, i as int, c),
        s@.len() <= usize::MAX,
{
    let n: usize = s.len();
    i < n && s[i] == c
}

spec fn counted_up(rest: Option<(int, nat)>, n: nat) -> Option<(int, nat)> {
    match rest {
        Some((end, k)) => Some((end, k + n)),
        None => None,
    }
}

fn placeholder_tuple(s: &[char], start: usize) -> (r: Option<(usize, usize)>)
    requires
        start <= s@.len(),
    ensures
        match r {
            Some((end, n)) => tuple_at(s@, start as int) == Some((end as int, n as nat)) && end
                <= s@.len(),
            None => tuple_at(s@, start as int) is None,
        },
{
    if !holds_char(s, start, '(') {
        return None;
    }
    let mut i: usize = start + 1;
    let mut arity: usize = 0;
    loop
        invariant
            start < i <= s@.len() <= usize::MAX,
            arity < i,
            char_at(s@, start as int, '('),
            tuple_at(s@, start as int) == counted_up(placeholders(s@, i as int), arity as nat),
        decreases s@.len() - i,
    {
        let a = skip_space(s, i);
        if !holds_char(s, a, '?') {
            return None;
        }
        let b = skip_space(s, a + 1);
        if holds_char(s, b, ',') {
            arity += 1;
            i = b + 1;
        } else if holds_char(s, b, ')') {
            return Some((b + 1, arity + 1));
        } else {
            return None;
        }
    }
}

fn placeholder_only_tail(s: &[char], from: usize) -> (r: bool)
    requires
        from <= s@.len(),
    ensures
        r == only_list_chars(s@, from as int),
{
    if from == s.len() {
        return false;
    }
    let mut i: usize = from;
    while i < s.len()
        invariant
            from <= i <= s@.len(),
            forall|j: int| from <= j < i ==> list_char(#[trigger] s@[j]),
        decreases s.len() - i,
    {
        let c = s[i];
        if !(space(c) || c == '(' || c == ')' || c == ',' || c == '?') {
            return false;
        }
        i += 1;
    }
    true
}

fn word_stands_at(s: &[char], i: usize, lower: &str, upper: &str) -> (r: bool)
    requires
        i <= s@.len(),
        lower@.len() == upper@.len(),
    ensures
        r == (word_at(s@, i as int, lower@, upper@) && stands_alone(
            s@,
            i as int,
            lower@.len() as int,
        )),
        s@.len() <= usize::MAX,
{
    let low = chars_of(lower);
    let high = chars_of(upper);
    let n: usize = low.len();
    if s.len() - i < n {
        return false;
    }
    let mut j: usize = 0;
    while j < n
        invariant
            low@ == lower@,
            high@ == upper@,
            n == lower@.len(),
            n == upper@.len(),
            j <= n,
            i + n <= s@.len() <= usize::MAX,
            forall|k: int|
                0 <= k < j ==> s@[i + k] == #[trigger] lower@[k] || s@[i + k] == upper@[k],
        decreases n - j,
    {
        if s[i + j] != low[j] && s[i + j] != high[j] {
            assert(!(s@[i + j] == lower@[j as int] || s@[i + j] == upper@[j as int]));
            return false;
        }
        j += 1;
    }
    if i > 0 && is_identifier(s[i - 1]) {
        return false;
    }
    if s.len() - i > n && is_identifier(s[i + n]) {
        return false;
    }
    true
}

fn starts_values_placeholder_tuples(s: &[char], start: usize) -> (r: Option<usize>)
    requires
        start <= s@.len(),
    ensures
        match r {
            Some(end) => values_at(s@, start as int) == Some(end as int) && start < end <= s@.len(),
            None => values_at(s@, start as int) is None,
        },
{
    proof {
        words_have_letters();
        lists_advance(s@, start as int);
    }
    if !word_stands_at(s, start, "values", "VALUES") {
        return None;
    }
    let open = skip_space(s, start + 6);
    let (first_end, arity) = match placeholder_tuple(s, open) {
        Some(t) => t,
        None => {
            return None;
        },
    };
    proof {
        tuple_advances(s@, open as int);
    }
    let mut end: usize = first_end;
    loop
        invariant
            start < end <= s@.len() <= usize::MAX,
            values_at(s@, start as int) == tuples_end(s@, end as int, arity as nat),
            values_at(s@, start as int) matches Some(e) ==> start < e <= s@.len(),
        decreases s@.len() - end,
    {
        let next = skip_space(s, end);
        if !holds_char(s, next, ',') {
            return Some(end);
        }
        let open = skip_space(s, next + 1);
        proof {
            tuple_advances(s@, open as int);
        }
        match placeholder_tuple(s, open) {
            None => {
                return if placeholder_only_tail(s, open) {
                    Some(s.len())
                } else {
                    None
                };
            },
            Some((next_end, next_arity)) => {
                if next_arity != arity {
                    return None;
                }
                end = next_end;
            },
        }
    }
}

fn starts_in_placeholder_list(s: &[char], start: usize) -> (r: Option<usize>)
    requires
        start <= s@.len(),
    ensures
        match r {
            Some(end) => in_at(s@, start as int) == Some(end as int) && start < end <= s@.len(),
            None => in_at(s@, start as int) is None,
        },
{
    proof {
        words_have_letters();
        lists_advance(s@, start as int);
    }
    if !word_stands_at(s, start, "in", "IN") {
        return None;
    }
    let open = skip_space(s, start + 2);
    match placeholder_tuple(s, open) {
        Some((end, _)) => Some(end),
        None => None,
    }
}

/// The shape of a digest: in lowercase, with lists of placeholders of any length written alike.
pub fn sql_shape(digest: &str) -> (r: String)
    ensures
        r@ == shape_of(digest@),
{
    let s = chars_of(digest);
    let mut out: Vec<char> = Vec::new();
    let mut i: usize = 0;
    assert(collapsed(s@, 0) == out@ + collapsed(s@, 0));
    while i < s.len()
        invariant
            s@ == digest@,
            i <= s@.len(),
            collapsed(s@, 0) == out@ + collapsed(s@, i as int),
        decreases s.len() - i,
    {
        let ghost before = out@;
        if let Some(end) = starts_values_placeholder_tuples(s.as_slice(), i) {
            append_str(&mut out, "values (?tuple+)");
            assert(before + ("values (?tuple+)"@ + collapsed(s@, end as int)) == out@ + collapsed(
                s@,
                end as int,
            ));
            i = end;
        } else if let Some(end) = starts_in_placeholder_list(s.as_slice(), i) {
            append_str(&mut out, "in (?+)");
            assert(before + ("in (?+)"@ + collapsed(s@, end as int)) == out@ + collapsed(
                s@,
                end as int,
            ));
            i = end;
        } else {
            let lower = lowercase(s[i]);
            append(&mut out, lower.as_slice());
            assert(before + (lowercase_of(s@[i as int]) + collapsed(s@, i + 1)) == out@
                + collapsed(s@, i + 1));
            i += 1;
        }
    }
    assert(collapsed(s@, 0) == out@);
    let parts = words_of(out.as_slice());
    let blank = chars_of(" ");
    string_of(joined(parts.as_slice(), blank.as_slice()).as_slice())
}

/// `n` placeholders with commas between them.
pub open spec fn question_list(n: nat) -> Seq<char>
    decreases n,
{
    if n <= 1 {
        seq!['?']
    } else {
        seq!['?', ','] + question_list((n - 1) as nat)
    }
}

proof fn question_list_read(s: Seq<char>, i: int, n: nat)
    requires
        0 <= i,
        n >= 1,
        i + question_list(n).len() < s.len(),
        s.subrange(i, i + question_list(n).len()) == question_list(n),
        s[i + question_list(n).len()] == ')',
    ensures
        placeholders(s, i) == Some((i + question_list(n).len() + 1, n)),
    decreases n,
{
    let q = question_list(n);
    assert(q[0] == '?');
    assert(s[i] == s.subrange(i, i + q.len())[0]);
    assert(after_space(s, i) == i);
    if n == 1 {
        assert(after_space(s, i + 1) == i + 1);
    } else {
        let rest = question_list((n - 1) as nat);
        assert(q[1] == ',');
        assert(s[i + 1] == s.subrange(i, i + q.len())[1]);
        assert(after_space(s, i + 1) == i + 1);
        assert(s.subrange(i + 2, i + 2 + rest.len()) == rest) by {
            assert forall|j: int| 0 <= j < rest.len() implies s.subrange(
                i + 2,
                i + 2 + rest.len(),
            )[j] == rest[j] by {
                assert(q[j + 2] == rest[j]);
                assert(s.subrange(i, i + q.len())[j + 2] == q[j + 2]);
            }
        }
        question_list_read(s, i + 2, (n - 1) as nat);
    }
}

/// An `IN` list of placeholders collapses to the same text whatever its length: it is recognized
/// at its first letter, and ends at its closing bracket.
pub proof fn in_lists_of_any_length_collapse(before: Seq<char>, n: nat, after: Seq<char>)
    requires
        n >= 1,
        before.len() > 0 ==> !identifier(before.last()),
    ensures
        ({
            let s = before + "in ("@ + question_list(n) + seq![')'] + after;
            let i = before.len() as int;
            let end = i + 4 + question_list(n).len() + 1;
            &&& in_at(s, i) == Some(end)
            &&& s.skip(end) == after
        }),
{
    words_have_letters();
    reveal_strlit("in (");
    reveal_strlit("in");
    reveal_strlit("IN");
    let q = question_list(n);
    let s = before + "in ("@ + q + seq![')'] + after;
    let i = before.len() as int;
    assert(s[i] == 'i' && s[i + 1] == 'n' && s[i + 2] == ' ' && s[i + 3] == '(');
    assert(word_at(s, i, "in"@, "IN"@));
    if i > 0 {
        assert(s[i - 1] == before.last());
    }
    assert(after_space(s, i + 3) == i + 3);
    assert(after_space(s, i + 2) == i + 3);
    assert(s.subrange(i + 4, i + 4 + q.len()) == q);
    assert(s[i + 4 + q.len()] == ')');
    question_list_read(s, i + 4, n);
    assert(s.skip(i + 4 + q.len() + 1) == after);
}

/// The first `limit` characters of a digest, with an ellipsis where there are more.
pub open spec fn example_of(digest: Seq<char>) -> Seq<char> {
    if digest.len() > 160 {
        digest.take(160).push('…')
    } else {
        digest
    }
}

/// A digest short enough to show.
pub fn digest_example(digest: &str) -> (r: String)
    ensures
        r@ == example_of(digest@),
{
    let chars = chars_of(digest);
    if chars.len() > 160 {
        let mut out = slice_of(chars.as_slice(), 0, 160);
        assert(out@ == digest@.take(160));
        out.push('…');
        string_of(out.as_slice())
    } else {
        digest.to_string()
    }
}

} // verus!
