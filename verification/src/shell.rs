//! Words for a shell and for file names.
use crate::text::{
    alnum, append, append_str, chars_of, is_alnum, join, joined, replace, replaced, starts,
    string_of, texts, views,
};
use vstd::prelude::*;

verus! {

/// `value` as one word for a shell: in single quotes, with each single quote in it written outside
/// of them.
pub open spec fn quoted(value: Seq<char>) -> Seq<char> {
    "'"@ + replace(value, "'"@, "'\\''"@) + "'"@
}

pub fn shell_quote(value: &str) -> (r: String)
    ensures
        r@ == quoted(value@),
{
    let mut out = chars_of("'");
    let body = replaced(
        chars_of(value).as_slice(),
        chars_of("'").as_slice(),
        chars_of("'\\''").as_slice(),
    );
    append(&mut out, body.as_slice());
    append_str(&mut out, "'");
    string_of(out.as_slice())
}

/// What a shell makes of a word from position `i` on: inside single quotes every character stands
/// for itself, and outside of them a backslash makes the character after it stand for itself.
pub open spec fn unquoted_from(word: Seq<char>, i: int, inside: bool) -> Seq<char>
    decreases word.len() - i,
{
    if i >= word.len() {
        Seq::empty()
    } else if inside {
        if word[i] == '\'' {
            unquoted_from(word, i + 1, false)
        } else {
            seq![word[i]] + unquoted_from(word, i + 1, true)
        }
    } else if word[i] == '\'' {
        unquoted_from(word, i + 1, true)
    } else if word[i] == '\\' && i + 1 < word.len() {
        seq![word[i + 1]] + unquoted_from(word, i + 2, false)
    } else {
        seq![word[i]] + unquoted_from(word, i + 1, false)
    }
}

/// What a shell makes of a word.
pub open spec fn unquoted(word: Seq<char>) -> Seq<char> {
    unquoted_from(word, 0, false)
}

/// What a shell makes of a word depends on what follows alone.
proof fn unquoted_suffix(a: Seq<char>, b: Seq<char>, i: int, inside: bool)
    requires
        0 <= i <= b.len(),
    ensures
        unquoted_from(a + b, a.len() + i, inside) == unquoted_from(b, i, inside),
    decreases b.len() - i,
{
    let whole = a + b;
    if i < b.len() {
        assert(whole[a.len() + i] == b[i]);
        unquoted_suffix(a, b, i + 1, inside);
        unquoted_suffix(a, b, i + 1, !inside);
        if i + 1 < b.len() {
            assert(whole[a.len() + i + 1] == b[i + 1]);
            unquoted_suffix(a, b, i + 2, inside);
        }
    }
}

proof fn quoted_body_reads_back(value: Seq<char>)
    ensures
        unquoted_from(replace(value, "'"@, "'\\''"@) + "'"@, 0, true) == value,
    decreases value.len(),
{
    let quote = "'"@;
    let escaped = "'\\''"@;
    reveal_strlit("'");
    reveal_strlit("'\\''");
    let body = replace(value, quote, escaped);
    if value.len() == 0 {
        assert(body == value);
        assert((body + quote)[0] == '\'');
        assert(unquoted_from(body + quote, 1, false) == Seq::<char>::empty());
        assert(unquoted_from(body + quote, 0, true) == value);
    } else {
        let rest = value.skip(1);
        let tail = replace(rest, quote, escaped);
        quoted_body_reads_back(rest);
        assert(value == seq![value[0]] + rest);
        if value[0] == '\'' {
            assert(value.take(1) == quote);
            assert(starts(value, quote));
            assert(body == escaped + tail);
            let word = body + quote;
            assert(word == escaped + (tail + quote));
            assert(word[0] == '\'' && word[1] == '\\' && word[2] == '\'' && word[3] == '\'');
            unquoted_suffix(escaped, tail + quote, 0, true);
            assert(unquoted_from(word, 4, true) == rest);
            assert(unquoted_from(word, 3, false) == rest);
            assert(unquoted_from(word, 1, false) == seq!['\''] + rest);
            assert(unquoted_from(word, 0, true) == value);
        } else {
            assert(value.take(1)[0] == value[0]);
            assert(!starts(value, quote));
            assert(body == seq![value[0]] + tail);
            let word = body + quote;
            assert(word == seq![value[0]] + (tail + quote));
            assert(word[0] == value[0]);
            unquoted_suffix(seq![value[0]], tail + quote, 0, true);
            assert(unquoted_from(word, 1, true) == rest);
        }
    }
}

/// A shell reads a quoted text back as it was, whatever the text holds.
pub proof fn quoting_reads_back(value: Seq<char>)
    ensures
        unquoted(quoted(value)) == value,
{
    reveal_strlit("'");
    let body = replace(value, "'"@, "'\\''"@) + "'"@;
    assert(quoted(value) == "'"@ + body);
    quoted_body_reads_back(value);
    unquoted_suffix("'"@, body, 0, true);
    assert(quoted(value)[0] == '\'');
}

/// The words of a command as one text for a shell.
pub open spec fn command_line(words: Seq<Seq<char>>) -> Seq<char> {
    join(words.map_values(|w: Seq<char>| quoted(w)), " "@)
}

pub fn quote_command(words: &Vec<String>) -> (r: String)
    ensures
        r@ == command_line(texts(words@)),
{
    let ghost all = texts(words@);
    let ghost each = |w: Seq<char>| quoted(w);
    let mut parts: Vec<Vec<char>> = Vec::new();
    let mut i: usize = 0;
    while i < words.len()
        invariant
            i <= words@.len(),
            all == texts(words@),
            each == (|w: Seq<char>| quoted(w)),
            views(parts@) == all.take(i as int).map_values(each),
        decreases words.len() - i,
    {
        let word = shell_quote(words[i].as_str());
        let part = chars_of(word.as_str());
        let ghost was = parts@;
        parts.push(part);
        assert(all[i as int] == words@[i as int]@);
        assert(views(parts@) == views(was).push(part@));
        assert(all.take(i + 1).map_values(each) == all.take(i as int).map_values(each).push(
            each(all[i as int]),
        ));
        i += 1;
    }
    assert(all.take(i as int) == all);
    string_of(joined(parts.as_slice(), chars_of(" ").as_slice()).as_slice())
}

/// A character that a file name may hold everywhere.
pub open spec fn plain_char(c: char) -> char {
    if is_alnum(c) || c == '-' || c == '_' {
        c
    } else {
        '-'
    }
}

/// `value` with a hyphen in place of every character that is not an ASCII letter, a digit, a hyphen
/// or an underscore.
pub open spec fn sanitized(value: Seq<char>) -> Seq<char> {
    value.map_values(|c: char| plain_char(c))
}

pub fn sanitize(value: &str) -> (r: String)
    ensures
        r@ == sanitized(value@),
{
    let chars = chars_of(value);
    let ghost each = |c: char| plain_char(c);
    let mut out: Vec<char> = Vec::new();
    let mut i: usize = 0;
    while i < chars.len()
        invariant
            i <= chars@.len(),
            chars@ == value@,
            each == (|c: char| plain_char(c)),
            out@ == value@.take(i as int).map_values(each),
        decreases chars.len() - i,
    {
        let c = chars[i];
        out.push(
            if alnum(c) || c == '-' || c == '_' {
                c
            } else {
                '-'
            },
        );
        assert(value@.take(i + 1).map_values(each) == value@.take(i as int).map_values(each).push(
            plain_char(c),
        ));
        i += 1;
    }
    assert(value@.take(i as int) == value@);
    string_of(out.as_slice())
}

/// A sanitized text names a file in its own directory: it holds no slash and no point. Sanitizing
/// it again changes nothing.
pub proof fn sanitized_names_are_plain(value: Seq<char>)
    ensures
        sanitized(value).len() == value.len(),
        sanitized(sanitized(value)) == sanitized(value),
        forall|i: int|
            0 <= i < value.len() ==> {
                let c = #[trigger] sanitized(value)[i];
                is_alnum(c) || c == '-' || c == '_'
            },
{
    assert(sanitized(sanitized(value)) == sanitized(value));
}

} // verus!
