//! What holds of the shapes of statements.
use crate::sql_shape::{
    after_space, after_space_advances, ascii_lower, char_at, collapsed, identifier, in_at,
    in_lists_of_any_length_collapse, list_char, lists_advance, lowercase_of, only_list_chars, placeholders, question_list,
    shape_of, stands_alone, tuple_advances, tuple_at, tuples_end, values_at, word_at,
};
use crate::text::{is_space, join, words};
use vstd::prelude::*;

verus! {

/// Every character of the text is ASCII.
pub open spec fn ascii(s: Seq<char>) -> bool {
    forall|i: int| 0 <= i < s.len() ==> #[trigger] s[i] <= '\u{7f}'
}

/// The text with each run of white space written as one blank, and none at its end.
pub open spec fn tidy(u: Seq<char>) -> Seq<char>
    decreases u.len(),
{
    if u.len() == 0 {
        u
    } else if is_space(u[0]) {
        if u.len() == 1 {
            Seq::empty()
        } else if is_space(u[1]) {
            tidy(u.skip(1))
        } else {
            seq![' '] + tidy(u.skip(1))
        }
    } else {
        seq![u[0]] + tidy(u.skip(1))
    }
}

/// The tidy text without a blank at its start.
spec fn led(u: Seq<char>) -> Seq<char> {
    if u.len() > 0 && is_space(u[0]) && tidy(u).len() > 0 {
        tidy(u).skip(1)
    } else {
        tidy(u)
    }
}

proof fn tidy_grows(u: Seq<char>, x: char)
    ensures
        tidy(u.push(x)) == (if is_space(x) {
            tidy(u)
        } else if u.len() > 0 && is_space(u.last()) {
            tidy(u) + seq![' ', x]
        } else {
            tidy(u).push(x)
        }),
    decreases u.len(),
{
    let v = u.push(x);
    reveal_with_fuel(tidy, 3);
    if u.len() > 0 {
        assert(v.skip(1) == u.skip(1).push(x));
        tidy_grows(u.skip(1), x);
        if u.len() > 1 {
            assert(u.skip(1).last() == u.last());
            assert(v[1] == u[1]);
        } else {
            assert(u.skip(1) == Seq::<char>::empty());
            assert(v.skip(1) == seq![x]);
        }
        if is_space(u[0]) {
            if u.len() > 1 {
                assert(seq![' '] + (tidy(u.skip(1)) + seq![' ', x]) == seq![' '] + tidy(u.skip(1))
                    + seq![' ', x]);
                assert(seq![' '] + tidy(u.skip(1)).push(x) == (seq![' '] + tidy(u.skip(1))).push(
                    x,
                ));
            } else {
                assert(seq![' '] + seq![x] == seq![' ', x]);
                assert(Seq::<char>::empty() + seq![' ', x] == seq![' ', x]);
                assert(tidy(seq![x]) == (if is_space(x) {
                    Seq::<char>::empty()
                } else {
                    seq![x] + tidy(seq![x].skip(1))
                }));
                assert(seq![x] + tidy(seq![x].skip(1)) == seq![x]);
            }
        } else {
            assert(seq![u[0]] + (tidy(u.skip(1)) + seq![' ', x]) == seq![u[0]] + tidy(u.skip(1))
                + seq![' ', x]);
            assert(seq![u[0]] + tidy(u.skip(1)).push(x) == (seq![u[0]] + tidy(u.skip(1))).push(x));
            if u.len() == 1 {
                assert(tidy(u) == seq![u[0]]);
            }
        }
    } else {
        assert(v == seq![x]);
        assert(v.skip(1) == Seq::<char>::empty());
    }
}

proof fn last_piece_grows(parts: Seq<Seq<char>>, sep: Seq<char>, x: char)
    requires
        parts.len() > 0,
    ensures
        join(parts.update(parts.len() - 1, parts.last().push(x)), sep) == join(parts, sep).push(x),
{
    let more = parts.update(parts.len() - 1, parts.last().push(x));
    if parts.len() > 1 {
        assert(more.drop_last() == parts.drop_last());
        assert(join(parts.drop_last(), sep) + sep + parts.last().push(x) == (join(
            parts.drop_last(),
            sep,
        ) + sep + parts.last()).push(x));
    }
}

/// Words with one blank between them are the tidy text.
proof fn joined_words_are_tidy(u: Seq<char>)
    ensures
        join(words(u), " "@) == led(u),
        words(u).len() == 0 <==> tidy(u).len() == 0,
        u.len() > 0 && !is_space(u.last()) ==> words(u).len() > 0,
    decreases u.len(),
{
    reveal_strlit(" ");
    if u.len() > 0 {
        let h = u.drop_last();
        let x = u.last();
        joined_words_are_tidy(h);
        tidy_grows(h, x);
        assert(h.push(x) == u);
        let rest = words(h);
        if h.len() > 0 {
            assert(h[0] == u[0]);
            assert(h.last() == u[u.len() - 2]);
            assert(tidy(h).len() == 0 ==> is_space(h[0]));
        }
        if is_space(x) {
        } else if u.len() >= 2 && !is_space(u[u.len() - 2]) {
            last_piece_grows(rest, " "@, x);
            if is_space(u[0]) {
                assert(tidy(h).push(x).skip(1) == tidy(h).skip(1).push(x));
            }
        } else {
            assert(words(u) == rest.push(seq![x]));
            assert(words(u).drop_last() == rest);
            if rest.len() == 0 {
                if h.len() > 0 {
                    assert((tidy(h) + seq![' ', x]).skip(1) == seq![x]);
                } else {
                    assert(tidy(h).push(x) == seq![x]);
                }
            } else {
                assert(join(rest, " "@) + " "@ + seq![x] == join(rest, " "@) + seq![' ', x]);
                if is_space(u[0]) {
                    assert((tidy(h) + seq![' ', x]).skip(1) == tidy(h).skip(1) + seq![' ', x]);
                }
            }
        }
    } else {
        assert(join(words(u), " "@) == Seq::<char>::empty());
    }
}

/// A text whose white space is single blanks before other characters stays as it is.
proof fn tidy_text_stays(a: Seq<char>, x: Seq<char>)
    requires
        forall|i: int|
            0 <= i < a.len() && is_space(#[trigger] a[i]) ==> a[i] == ' ' && i + 1 < a.len()
                && !is_space(a[i + 1]),
    ensures
        tidy(a + x) == a + tidy(x),
    decreases a.len(),
{
    if a.len() == 0 {
        assert(a + x == x);
        assert(a + tidy(x) == tidy(x));
    } else {
        let rest = a.skip(1);
        assert forall|i: int| 0 <= i < rest.len() && is_space(#[trigger] rest[i]) implies rest[i]
            == ' ' && i + 1 < rest.len() && !is_space(rest[i + 1]) by {
            assert(rest[i] == a[i + 1]);
        }
        tidy_text_stays(rest, x);
        assert((a + x).skip(1) == rest + x);
        if is_space(a[0]) {
            assert((a + x)[1] == a[1]);
        }
        assert(seq![a[0]] + (rest + tidy(x)) == a + tidy(x));
    }
}

/// White space in a tidy text is a blank with another character after it.
proof fn tidy_is_tidy(u: Seq<char>)
    ensures
        forall|i: int|
            0 <= i < tidy(u).len() && is_space(#[trigger] tidy(u)[i]) ==> tidy(u)[i] == ' ' && i + 1
                < tidy(u).len() && !is_space(tidy(u)[i + 1]),
        u.len() > 0 && !is_space(u[0]) ==> tidy(u).len() > 0 && tidy(u)[0] == u[0],
        u.len() > 0 && is_space(u[0]) && tidy(u).len() > 0 ==> tidy(u)[0] == ' ',
    decreases u.len(),
{
    if u.len() > 0 {
        let rest = u.skip(1);
        tidy_is_tidy(rest);
        let t = tidy(rest);
        let all = tidy(u);
        if u.len() > 1 {
            assert(rest[0] == u[1]);
        }
        assert forall|i: int| 0 <= i < all.len() && is_space(#[trigger] all[i]) implies all[i]
            == ' ' && i + 1 < all.len() && !is_space(all[i + 1]) by {
            if all == t {
                assert(t[i] == all[i]);
            } else if i > 0 {
                assert(all[i] == t[i - 1]);
                assert(all[i + 1] == t[i]);
            } else {
                assert(all[1] == t[0]);
            }
        }
    }
}

/// No shape begins or ends with white space or holds two blanks in a row: white space in it is
/// one blank between two other characters.
pub proof fn shapes_are_tidy(digest: Seq<char>)
    ensures
        forall|i: int|
            0 <= i < shape_of(digest).len() && is_space(#[trigger] shape_of(digest)[i]) ==> shape_of(
                digest,
            )[i] == ' ' && 0 < i && i + 1 < shape_of(digest).len() && !is_space(
                shape_of(digest)[i + 1],
            ),
{
    let u = collapsed(digest, 0);
    let t = tidy(u);
    let sh = shape_of(digest);
    joined_words_are_tidy(u);
    tidy_is_tidy(u);
    assert forall|i: int| 0 <= i < sh.len() && is_space(#[trigger] sh[i]) implies sh[i] == ' ' && 0
        < i && i + 1 < sh.len() && !is_space(sh[i + 1]) by {
        if u.len() > 0 && is_space(u[0]) && t.len() > 0 {
            assert(sh[i] == t[i + 1]);
            assert(sh[i + 1] == t[i + 2]);
            assert(t[0] == ' ');
        } else {
            assert(sh[i] == t[i]);
        }
    }
}

/// The tidy text of what is collapsed from position `i` on.
spec fn shaped(s: Seq<char>, i: int) -> Seq<char> {
    tidy(collapsed(s, i))
}

proof fn letters()
    ensures
        "values"@ == seq!['v', 'a', 'l', 'u', 'e', 's'],
        "VALUES"@ == seq!['V', 'A', 'L', 'U', 'E', 'S'],
        "in"@ == seq!['i', 'n'],
        "IN"@ == seq!['I', 'N'],
        "values (?tuple+)"@ == seq![
            'v',
            'a',
            'l',
            'u',
            'e',
            's',
            ' ',
            '(',
            '?',
            't',
            'u',
            'p',
            'l',
            'e',
            '+',
            ')',
        ],
        "in (?+)"@ == seq!['i', 'n', ' ', '(', '?', '+', ')'],
{
    reveal_strlit("values");
    reveal_strlit("VALUES");
    reveal_strlit("in");
    reveal_strlit("IN");
    reveal_strlit("values (?tuple+)");
    reveal_strlit("in (?+)");
}

/// A list begins with a letter of its word, and none begins inside an identifier.
proof fn lists_begin(s: Seq<char>, i: int)
    ensures
        values_at(s, i) is Some ==> s[i] == 'v' || s[i] == 'V',
        in_at(s, i) is Some ==> s[i] == 'i' || s[i] == 'I',
        i > 0 && identifier(s[i - 1]) ==> values_at(s, i) is None && in_at(s, i) is None,
{
    letters();
    if values_at(s, i) is Some {
        assert(s[i + 0] == "values"@[0] || s[i + 0] == "VALUES"@[0]);
    }
    if in_at(s, i) is Some {
        assert(s[i + 0] == "in"@[0] || s[i + 0] == "IN"@[0]);
    }
}

proof fn lower_letters(c: char)
    requires
        c <= '\u{7f}',
    ensures
        is_space(c) <==> is_space(ascii_lower(c)),
        is_space(c) ==> ascii_lower(c) == c,
        identifier(c) <==> identifier(ascii_lower(c)),
        list_char(c) <==> list_char(ascii_lower(c)),
        list_char(c) ==> ascii_lower(c) == c,
        list_char(c) ==> !identifier(c),
        ascii_lower(c) <= '\u{7f}',
        ascii_lower(ascii_lower(c)) == ascii_lower(c),
        !('A' <= ascii_lower(c) <= 'Z'),
{
}

proof fn shaped_steps(s: Seq<char>, i: int)
    requires
        ascii(s),
        0 <= i < s.len(),
    ensures
        is_space(s[i]) ==> shaped(s, i) == (if i + 1 == s.len() {
            Seq::<char>::empty()
        } else if is_space(s[i + 1]) {
            shaped(s, i + 1)
        } else {
            seq![' '] + shaped(s, i + 1)
        }),
        !is_space(s[i]) ==> shaped(s, i) == (match values_at(s, i) {
            Some(end) => "values (?tuple+)"@ + shaped(s, end),
            None => match in_at(s, i) {
                Some(end) => "in (?+)"@ + shaped(s, end),
                None => seq![ascii_lower(s[i])] + shaped(s, i + 1),
            },
        }),
{
    letters();
    lists_begin(s, i);
    lists_advance(s, i);
    lower_letters(s[i]);
    let u = collapsed(s, i);
    if values_at(s, i) is Some {
        tidy_text_stays("values (?tuple+)"@, collapsed(s, values_at(s, i)->0));
    } else if in_at(s, i) is Some {
        tidy_text_stays("in (?+)"@, collapsed(s, in_at(s, i)->0));
    } else {
        assert(u == seq![ascii_lower(s[i])] + collapsed(s, i + 1));
        assert(u.skip(1) == collapsed(s, i + 1));
        if i + 1 == s.len() {
            assert(collapsed(s, i + 1) == Seq::<char>::empty());
            assert(u == seq![ascii_lower(s[i])]);
        } else {
            first_collapsed(s, i + 1);
        }
    }
}

proof fn first_collapsed(s: Seq<char>, i: int)
    requires
        ascii(s),
        0 <= i < s.len(),
    ensures
        collapsed(s, i).len() > 0,
        is_space(collapsed(s, i)[0]) <==> is_space(s[i]),
{
    letters();
    lists_begin(s, i);
    lists_advance(s, i);
    lower_letters(s[i]);
}

/// A run of white space becomes one blank, unless the text ends with it.
proof fn run_is_one_blank(s: Seq<char>, i: int)
    requires
        ascii(s),
        0 <= i < s.len(),
        is_space(s[i]),
    ensures
        ({
            let a = after_space(s, i);
            shaped(s, i) == (if a == s.len() {
                Seq::<char>::empty()
            } else {
                seq![' '] + shaped(s, a)
            })
        }),
    decreases s.len() - i,
{
    after_space_advances(s, i + 1);
    shaped_steps(s, i);
    if i + 1 < s.len() && is_space(s[i + 1]) {
        run_is_one_blank(s, i + 1);
    }
}

/// The first character of what another one than white space becomes.
proof fn first_shaped(s: Seq<char>, i: int)
    requires
        ascii(s),
        0 <= i < s.len(),
        !is_space(s[i]),
    ensures
        shaped(s, i).len() > 0,
        !is_space(shaped(s, i)[0]),
        identifier(shaped(s, i)[0]) <==> identifier(s[i]),
        list_char(shaped(s, i)[0]) <==> list_char(s[i]),
        list_char(s[i]) ==> shaped(s, i) == seq![s[i]] + shaped(s, i + 1),
{
    letters();
    shaped_steps(s, i);
    lists_begin(s, i);
    lower_letters(s[i]);
}

/// From position `k` on `t` is what `s` becomes from position `i` on.
spec fn aligned(s: Seq<char>, i: int, t: Seq<char>, k: int) -> bool {
    &&& ascii(s)
    &&& 0 <= i <= s.len()
    &&& 0 <= k <= t.len()
    &&& t.skip(k) == shaped(s, i)
}

proof fn aligned_ends(s: Seq<char>, i: int, t: Seq<char>, k: int)
    requires
        aligned(s, i, t, k),
    ensures
        i == s.len() ==> k == t.len(),
        k < t.len() ==> shaped(s, i).len() > 0 && shaped(s, i)[0] == t[k],
        shaped(s, i).len() > 0 ==> k < t.len(),
{
    assert(t.skip(k).len() == t.len() - k);
    if k < t.len() {
        assert(t.skip(k)[0] == t[k]);
    }
    if i == s.len() {
        assert(collapsed(s, i) == Seq::<char>::empty());
    }
}

proof fn aligned_next(s: Seq<char>, i: int, j: int, t: Seq<char>, k: int, head: Seq<char>)
    requires
        aligned(s, i, t, k),
        0 <= j <= s.len(),
        shaped(s, i) == head + shaped(s, j),
    ensures
        aligned(s, j, t, k + head.len()),
        forall|x: int| 0 <= x < head.len() ==> t[k + x] == #[trigger] head[x],
{
    assert(t.skip(k).len() == t.len() - k);
    assert(t.skip(k + head.len()) == t.skip(k).skip(head.len() as int));
    assert((head + shaped(s, j)).skip(head.len() as int) == shaped(s, j));
    assert forall|x: int| 0 <= x < head.len() implies t[k + x] == #[trigger] head[x] by {
        assert(t.skip(k)[x] == t[k + x]);
        assert((head + shaped(s, j))[x] == head[x]);
    }
}

proof fn aligned_after_space(s: Seq<char>, i: int, t: Seq<char>, k: int)
    requires
        aligned(s, i, t, k),
    ensures
        aligned(s, after_space(s, i), t, after_space(t, k)),
        i <= after_space(s, i) <= s.len(),
        k <= after_space(t, k) <= t.len(),
        after_space(s, i) < s.len() ==> !is_space(s[after_space(s, i)]),
{
    let a = after_space(s, i);
    after_space_advances(s, i);
    after_space_advances(t, k);
    space_ends(s, i);
    aligned_ends(s, i, t, k);
    if i < s.len() && is_space(s[i]) {
        run_is_one_blank(s, i);
        if a == s.len() {
            assert(k == t.len()) by {
                assert(t.skip(k).len() == 0);
            }
            assert(collapsed(s, a) == Seq::<char>::empty());
            assert(shaped(s, a) == Seq::<char>::empty());
        } else {
            aligned_next(s, i, a, t, k, seq![' ']);
            aligned_ends(s, a, t, k + 1);
            first_shaped(s, a);
            assert(t[k + 0] == seq![' '][0]);
            assert(after_space(t, k + 1) == k + 1);
            assert(after_space(t, k) == k + 1);
        }
    } else if i < s.len() {
        first_shaped(s, i);
        assert(after_space(t, k) == k);
    }
}

proof fn space_ends(s: Seq<char>, i: int)
    requires
        0 <= i <= s.len(),
    ensures
        after_space(s, i) < s.len() ==> !is_space(s[after_space(s, i)]),
    decreases s.len() - i,
{
    if i < s.len() && is_space(s[i]) {
        space_ends(s, i + 1);
    }
}

proof fn aligned_char(s: Seq<char>, a: int, t: Seq<char>, b: int, c: char)
    requires
        aligned(s, a, t, b),
        a < s.len() ==> !is_space(s[a]),
        list_char(c),
        !is_space(c),
    ensures
        char_at(s, a, c) == char_at(t, b, c),
        char_at(s, a, c) ==> aligned(s, a + 1, t, b + 1),
{
    aligned_ends(s, a, t, b);
    if a < s.len() {
        first_shaped(s, a);
        if list_char(s[a]) {
            aligned_next(s, a, a + 1, t, b, seq![s[a]]);
            assert(t[b + 0] == seq![s[a]][0]);
        }
    }
}

proof fn aligned_placeholders(s: Seq<char>, i: int, t: Seq<char>, k: int)
    requires
        aligned(s, i, t, k),
    ensures
        match placeholders(s, i) {
            Some((e, n)) => placeholders(t, k) matches Some((f, m)) && n == m && aligned(s, e, t, f),
            None => placeholders(t, k) is None,
        },
    decreases s.len() - i,
{
    aligned_after_space(s, i, t, k);
    let a = after_space(s, i);
    let b = after_space(t, k);
    aligned_char(s, a, t, b, '?');
    if char_at(s, a, '?') {
        aligned_after_space(s, a + 1, t, b + 1);
        let c = after_space(s, a + 1);
        let d = after_space(t, b + 1);
        aligned_char(s, c, t, d, ',');
        aligned_char(s, c, t, d, ')');
        if char_at(s, c, ',') {
            aligned_placeholders(s, c + 1, t, d + 1);
        }
    }
}

proof fn aligned_tuple(s: Seq<char>, i: int, t: Seq<char>, k: int)
    requires
        aligned(s, i, t, k),
        i < s.len() ==> !is_space(s[i]),
    ensures
        match tuple_at(s, i) {
            Some((e, n)) => tuple_at(t, k) matches Some((f, m)) && n == m && aligned(s, e, t, f),
            None => tuple_at(t, k) is None,
        },
{
    aligned_char(s, i, t, k, '(');
    if char_at(s, i, '(') {
        aligned_placeholders(s, i + 1, t, k + 1);
    }
}

proof fn aligned_list_chars(s: Seq<char>, i: int, t: Seq<char>, k: int)
    requires
        aligned(s, i, t, k),
        forall|x: int| k <= x < t.len() ==> list_char(#[trigger] t[x]),
    ensures
        forall|x: int| i <= x < s.len() ==> list_char(#[trigger] s[x]),
    decreases s.len() - i,
{
    if i < s.len() {
        after_space_advances(s, i + 1);
        if is_space(s[i]) {
            aligned_after_space(s, i, t, k);
            let a = after_space(s, i);
            aligned_list_chars(s, a, t, after_space(t, k));
            spaces_between(s, i);
        } else {
            first_shaped(s, i);
            aligned_ends(s, i, t, k);
            aligned_next(s, i, i + 1, t, k, seq![s[i]]);
            aligned_list_chars(s, i + 1, t, k + 1);
        }
    }
}

proof fn spaces_between(s: Seq<char>, i: int)
    requires
        0 <= i <= s.len(),
    ensures
        forall|x: int| i <= x < after_space(s, i) ==> is_space(#[trigger] s[x]),
    decreases s.len() - i,
{
    if i < s.len() && is_space(s[i]) {
        spaces_between(s, i + 1);
    }
}

proof fn aligned_tuples(s: Seq<char>, e: int, t: Seq<char>, f: int, arity: nat)
    requires
        aligned(s, e, t, f),
        tuples_end(t, f, arity) is Some,
    ensures
        tuples_end(s, e, arity) is Some,
    decreases s.len() - e,
{
    aligned_after_space(s, e, t, f);
    let a = after_space(s, e);
    let b = after_space(t, f);
    aligned_char(s, a, t, b, ',');
    if char_at(s, a, ',') {
        aligned_after_space(s, a + 1, t, b + 1);
        let o = after_space(s, a + 1);
        let p = after_space(t, b + 1);
        aligned_tuple(s, o, t, p);
        tuple_advances(s, o);
        match tuple_at(s, o) {
            Some((g, n)) => {
                if n == arity {
                    let (h, _) = tuple_at(t, p)->0;
                    aligned_tuples(s, g, t, h, arity);
                }
            },
            None => {
                if only_list_chars(t, p) {
                    aligned_ends(s, o, t, p);
                    aligned_list_chars(s, o, t, p);
                }
            },
        }
    }
}

/// A letter of a word in `t` comes from a letter in `s`.
proof fn aligned_letter(s: Seq<char>, i: int, t: Seq<char>, k: int)
    requires
        aligned(s, i, t, k),
        k < t.len(),
        identifier(t[k]),
        values_at(s, i) is None,
        in_at(s, i) is None,
    ensures
        i < s.len(),
        identifier(s[i]),
        t[k] == ascii_lower(s[i]),
        aligned(s, i + 1, t, k + 1),
        values_at(s, i + 1) is None,
        in_at(s, i + 1) is None,
{
    aligned_ends(s, i, t, k);
    shaped_steps(s, i);
    lower_letters(s[i]);
    if is_space(s[i]) {
        run_is_one_blank(s, i);
        assert(t[k] == ' ');
        lower_letters(' ');
        assert(false);
    }
    aligned_next(s, i, i + 1, t, k, seq![ascii_lower(s[i])]);
    lists_begin(s, i + 1);
}

/// No word stops earlier in `s` than in `t`.
proof fn aligned_word_end(s: Seq<char>, i: int, t: Seq<char>, k: int)
    requires
        aligned(s, i, t, k),
        k < t.len() ==> !identifier(t[k]),
    ensures
        i < s.len() ==> !identifier(s[i]),
{
    if i < s.len() && identifier(s[i]) {
        lower_letters(s[i]);
        first_shaped(s, i);
        aligned_ends(s, i, t, k);
    }
}

/// What stands before decides alike on both sides.
spec fn same_before(s: Seq<char>, i: int, t: Seq<char>, k: int) -> bool {
    (i > 0 && identifier(s[i - 1])) == (k > 0 && identifier(t[k - 1]))
}

proof fn no_new_in(s: Seq<char>, i: int, t: Seq<char>, k: int)
    requires
        aligned(s, i, t, k),
        same_before(s, i, t, k),
        values_at(s, i) is None,
        in_at(s, i) is None,
    ensures
        in_at(t, k) is None,
{
    letters();
    if in_at(t, k) is Some {
        assert(t[k + 0] == "in"@[0] || t[k + 0] == "IN"@[0]);
        assert(t[k + 1] == "in"@[1] || t[k + 1] == "IN"@[1]);
        aligned_letter(s, i, t, k);
        aligned_letter(s, i + 1, t, k + 1);
        aligned_word_end(s, i + 2, t, k + 2);
        lower_letters(s[i]);
        lower_letters(s[i + 1]);
        assert(word_at(s, i, "in"@, "IN"@)) by {
            assert forall|j: int| 0 <= j < "in"@.len() implies s[i + j] == #[trigger] "in"@[j]
                || s[i + j] == "IN"@[j] by {
                if j == 0 {
                } else {
                    assert(j == 1);
                }
            }
        }
        assert(stands_alone(s, i, 2));
        aligned_after_space(s, i + 2, t, k + 2);
        aligned_tuple(s, after_space(s, i + 2), t, after_space(t, k + 2));
    }
}

proof fn no_new_values(s: Seq<char>, i: int, t: Seq<char>, k: int)
    requires
        aligned(s, i, t, k),
        same_before(s, i, t, k),
        values_at(s, i) is None,
        in_at(s, i) is None,
    ensures
        values_at(t, k) is None,
{
    letters();
    if values_at(t, k) is Some {
        let low = "values"@;
        let high = "VALUES"@;
        assert(t[k + 0] == low[0] || t[k + 0] == high[0]);
        assert(t[k + 1] == low[1] || t[k + 1] == high[1]);
        assert(t[k + 2] == low[2] || t[k + 2] == high[2]);
        assert(t[k + 3] == low[3] || t[k + 3] == high[3]);
        assert(t[k + 4] == low[4] || t[k + 4] == high[4]);
        assert(t[k + 5] == low[5] || t[k + 5] == high[5]);
        aligned_letter(s, i, t, k);
        aligned_letter(s, i + 1, t, k + 1);
        aligned_letter(s, i + 2, t, k + 2);
        aligned_letter(s, i + 3, t, k + 3);
        aligned_letter(s, i + 4, t, k + 4);
        aligned_letter(s, i + 5, t, k + 5);
        aligned_word_end(s, i + 6, t, k + 6);
        assert(word_at(s, i, low, high)) by {
            assert forall|j: int| 0 <= j < low.len() implies s[i + j] == #[trigger] low[j] || s[i
                + j] == high[j] by {
                if j == 0 {
                } else if j == 1 {
                } else if j == 2 {
                } else if j == 3 {
                } else if j == 4 {
                } else {
                    assert(j == 5);
                }
            }
        }
        assert(stands_alone(s, i, 6));
        aligned_after_space(s, i + 6, t, k + 6);
        let a = after_space(s, i + 6);
        let b = after_space(t, k + 6);
        aligned_tuple(s, a, t, b);
        let (f, n) = tuple_at(t, b)->0;
        let (e, m) = tuple_at(s, a)->0;
        aligned_tuples(s, e, t, f, n);
    }
}

/// Inside the text of a collapsed list no list begins.
proof fn collapsed_lists_hold_none(t: Seq<char>, k: int, x: int, head: Seq<char>)
    requires
        0 <= k,
        k + head.len() <= t.len(),
        0 <= x < head.len(),
        head == "values (?tuple+)"@ || head == "in (?+)"@,
        forall|y: int| 0 <= y < head.len() ==> t[k + y] == #[trigger] head[y],
    ensures
        values_at(t, k + x) is None,
        in_at(t, k + x) is None,
        ascii_lower(t[k + x]) == t[k + x],
        t[k + x] <= '\u{7f}',
{
    letters();
    lists_begin(t, k + x);
    assert(t[k + x] == head[x]);
    if head == "values (?tuple+)"@ {
        if x == 0 {
            assert(t[k + 6] == head[6] && t[k + 7] == head[7] && t[k + 8] == head[8] && t[k + 9]
                == head[9]);
            assert(after_space(t, k + 7) == k + 7);
            assert(after_space(t, k + 6) == k + 7);
            assert(after_space(t, k + 8) == k + 8);
            assert(after_space(t, k + 9) == k + 9);
            assert(placeholders(t, k + 8) is None);
            assert(tuple_at(t, k + 7) is None);
        }
    } else {
        if x == 0 {
            assert(t[k + 2] == head[2] && t[k + 3] == head[3] && t[k + 4] == head[4] && t[k + 5]
                == head[5]);
            assert(after_space(t, k + 3) == k + 3);
            assert(after_space(t, k + 2) == k + 3);
            assert(after_space(t, k + 4) == k + 4);
            assert(after_space(t, k + 5) == k + 5);
            assert(placeholders(t, k + 4) is None);
            assert(tuple_at(t, k + 3) is None);
        }
    }
}

/// A position at which nothing is left to collapse.
spec fn settled(t: Seq<char>, k: int) -> bool {
    &&& values_at(t, k) is None
    &&& in_at(t, k) is None
    &&& t[k] <= '\u{7f}'
    &&& ascii_lower(t[k]) == t[k]
}

/// A list ends with its bracket, or with the text.
proof fn lists_end(s: Seq<char>, i: int)
    requires
        0 <= i < s.len(),
    ensures
        values_at(s, i) matches Some(end) ==> end == s.len() || s[end - 1] == ')',
        in_at(s, i) matches Some(end) ==> s[end - 1] == ')',
{
    letters();
    if values_at(s, i) is Some {
        after_space_advances(s, i + 6);
        let a = after_space(s, i + 6);
        tuple_advances(s, a);
        tuple_ends(s, a);
        let (end, n) = tuple_at(s, a)->0;
        tuples_close(s, end, n);
    }
    if in_at(s, i) is Some {
        after_space_advances(s, i + 2);
        tuple_ends(s, after_space(s, i + 2));
    }
}

proof fn placeholders_end(s: Seq<char>, i: int)
    requires
        0 <= i <= s.len(),
    ensures
        placeholders(s, i) matches Some((end, n)) ==> 0 < end <= s.len() && s[end - 1] == ')',
    decreases s.len() - i,
{
    after_space_advances(s, i);
    let a = after_space(s, i);
    if char_at(s, a, '?') {
        after_space_advances(s, a + 1);
        let b = after_space(s, a + 1);
        if char_at(s, b, ',') {
            placeholders_end(s, b + 1);
        }
    }
}

proof fn tuple_ends(s: Seq<char>, i: int)
    requires
        0 <= i <= s.len(),
    ensures
        tuple_at(s, i) matches Some((end, n)) ==> 0 < end <= s.len() && s[end - 1] == ')',
{
    if char_at(s, i, '(') {
        placeholders_end(s, i + 1);
    }
}

proof fn tuples_close(s: Seq<char>, end: int, arity: nat)
    requires
        0 < end <= s.len(),
        s[end - 1] == ')',
    ensures
        tuples_end(s, end, arity) matches Some(e) ==> e == s.len() || s[e - 1] == ')',
    decreases s.len() - end,
{
    after_space_advances(s, end);
    let next = after_space(s, end);
    if char_at(s, next, ',') {
        after_space_advances(s, next + 1);
        let open = after_space(s, next + 1);
        tuple_advances(s, open);
        tuple_ends(s, open);
        if let Some((e, n)) = tuple_at(s, open) {
            if n == arity {
                tuples_close(s, e, arity);
            }
        }
    }
}

proof fn all_settled(s: Seq<char>, i: int, t: Seq<char>, k: int)
    requires
        aligned(s, i, t, k),
        same_before(s, i, t, k),
    ensures
        forall|x: int| k <= x < t.len() ==> #[trigger] settled(t, x),
    decreases s.len() - i,
{
    letters();
    aligned_ends(s, i, t, k);
    if i < s.len() {
        lists_begin(s, i);
        lists_advance(s, i);
        shaped_steps(s, i);
        lower_letters(s[i]);
        if is_space(s[i]) {
            after_space_advances(s, i + 1);
            spaces_between(s, i);
            run_is_one_blank(s, i);
            let a = after_space(s, i);
            if a == s.len() {
                assert(t.skip(k).len() == 0);
            } else {
                aligned_next(s, i, a, t, k, seq![' ']);
                assert(t[k + 0] == seq![' '][0]);
                assert(is_space(s[a - 1]));
                lower_letters(s[a - 1]);
                lower_letters(' ');
                all_settled(s, a, t, k + 1);
                lists_begin(t, k);
                assert(settled(t, k));
            }
        } else if values_at(s, i) is Some || in_at(s, i) is Some {
            lists_end(s, i);
            let head = if values_at(s, i) is Some {
                "values (?tuple+)"@
            } else {
                "in (?+)"@
            };
            let end = if values_at(s, i) is Some {
                values_at(s, i)->0
            } else {
                in_at(s, i)->0
            };
            aligned_next(s, i, end, t, k, head);
            let next = k + head.len();
            assert(head[head.len() - 1] == ')');
            assert(t[k + (head.len() - 1)] == ')');
            if end < s.len() {
                all_settled(s, end, t, next);
            } else {
                aligned_ends(s, end, t, next);
            }
            assert forall|x: int| k <= x < t.len() implies #[trigger] settled(t, x) by {
                if x < next {
                    collapsed_lists_hold_none(t, k, x - k, head);
                    assert(k + (x - k) == x);
                }
            }
        } else {
            aligned_next(s, i, i + 1, t, k, seq![ascii_lower(s[i])]);
            assert(t[k + 0] == seq![ascii_lower(s[i])][0]);
            no_new_in(s, i, t, k);
            no_new_values(s, i, t, k);
            all_settled(s, i + 1, t, k + 1);
            assert(settled(t, k));
        }
    }
}

proof fn settled_text_stays(t: Seq<char>, k: int)
    requires
        0 <= k <= t.len(),
        forall|x: int| 0 <= x < t.len() ==> #[trigger] settled(t, x),
    ensures
        collapsed(t, k) == t.skip(k),
    decreases t.len() - k,
{
    if k < t.len() {
        settled_text_stays(t, k + 1);
        assert(settled(t, k));
        assert(lowercase_of(t[k]) == seq![t[k]]);
        assert(seq![t[k]] + t.skip(k + 1) == t.skip(k));
    } else {
        assert(t.skip(k) == Seq::<char>::empty());
    }
}

/// The shape of an ASCII digest is what the digest becomes from its first character on.
proof fn shape_is_aligned(digest: Seq<char>)
    requires
        ascii(digest),
    ensures
        aligned(digest, after_space(digest, 0), shape_of(digest), 0),
        same_before(digest, after_space(digest, 0), shape_of(digest), 0),
{
    let u = collapsed(digest, 0);
    let t = shape_of(digest);
    let a = after_space(digest, 0);
    joined_words_are_tidy(u);
    after_space_advances(digest, 0);
    assert(t.skip(0) == t);
    if digest.len() > 0 {
        first_collapsed(digest, 0);
        if is_space(digest[0]) {
            after_space_advances(digest, 1);
            run_is_one_blank(digest, 0);
            spaces_between(digest, 0);
            assert(is_space(digest[a - 1]));
            lower_letters(digest[a - 1]);
            if a == digest.len() {
                assert(collapsed(digest, a) == Seq::<char>::empty());
                assert(shaped(digest, a) == Seq::<char>::empty());
            } else {
                assert((seq![' '] + shaped(digest, a)).skip(1) == shaped(digest, a));
            }
        }
    } else {
        assert(u == Seq::<char>::empty());
    }
}

/// The shape of an ASCII digest holds no capital letter.
pub proof fn shapes_are_in_lowercase(digest: Seq<char>)
    requires
        ascii(digest),
    ensures
        forall|i: int|
            0 <= i < shape_of(digest).len() ==> #[trigger] shape_of(digest)[i] <= '\u{7f}' && !('A'
                <= shape_of(digest)[i] <= 'Z'),
{
    let t = shape_of(digest);
    shape_is_aligned(digest);
    all_settled(digest, after_space(digest, 0), t, 0);
    assert forall|i: int| 0 <= i < t.len() implies #[trigger] t[i] <= '\u{7f}' && !('A' <= t[i]
        <= 'Z') by {
        assert(settled(t, i));
        lower_letters(t[i]);
    }
}

/// The shape of the shape of an ASCII digest is the shape itself.
pub proof fn shapes_have_their_own_shape(digest: Seq<char>)
    requires
        ascii(digest),
    ensures
        shape_of(shape_of(digest)) == shape_of(digest),
{
    let t = shape_of(digest);
    shape_is_aligned(digest);
    all_settled(digest, after_space(digest, 0), t, 0);
    settled_text_stays(t, 0);
    assert(t.skip(0) == t);
    shapes_are_tidy(digest);
    joined_words_are_tidy(t);
    assert(tidy(t) == t) by {
        tidy_text_stays(t, Seq::empty());
        assert(t + Seq::<char>::empty() == t);
    }
    if t.len() > 0 {
        assert(!is_space(t[0]));
    }
}

/// From `i` on `s` is what `t` is from `j` on.
spec fn same_tail(s: Seq<char>, i: int, t: Seq<char>, j: int) -> bool {
    &&& 0 <= i <= s.len()
    &&& 0 <= j <= t.len()
    &&& s.len() - i == t.len() - j
    &&& forall|x: int| #![trigger s[x]] i <= x < s.len() ==> s[x] == t[x + (j - i)]
}

proof fn tail_space(s: Seq<char>, i: int, t: Seq<char>, j: int)
    requires
        same_tail(s, i, t, j),
    ensures
        after_space(t, j) == after_space(s, i) + (j - i),
        i <= after_space(s, i) <= s.len(),
        same_tail(s, after_space(s, i), t, after_space(t, j)),
    decreases s.len() - i,
{
    after_space_advances(s, i);
    if i < s.len() {
        assert(s[i] == t[i + (j - i)]);
        if is_space(s[i]) {
            tail_space(s, i + 1, t, j + 1);
        }
    }
}

proof fn tail_char(s: Seq<char>, i: int, t: Seq<char>, j: int, c: char)
    requires
        same_tail(s, i, t, j),
    ensures
        char_at(s, i, c) == char_at(t, j, c),
        char_at(s, i, c) ==> same_tail(s, i + 1, t, j + 1),
{
    if i < s.len() {
        assert(s[i] == t[i + (j - i)]);
    }
}

proof fn tail_placeholders(s: Seq<char>, i: int, t: Seq<char>, j: int)
    requires
        same_tail(s, i, t, j),
    ensures
        match placeholders(s, i) {
            Some((e, n)) => placeholders(t, j) == Some((e + (j - i), n)) && i <= e <= s.len(),
            None => placeholders(t, j) is None,
        },
    decreases s.len() - i,
{
    tail_space(s, i, t, j);
    let a = after_space(s, i);
    let b = after_space(t, j);
    tail_char(s, a, t, b, '?');
    if char_at(s, a, '?') {
        tail_space(s, a + 1, t, b + 1);
        let c = after_space(s, a + 1);
        let d = after_space(t, b + 1);
        tail_char(s, c, t, d, ',');
        tail_char(s, c, t, d, ')');
        if char_at(s, c, ',') {
            tail_placeholders(s, c + 1, t, d + 1);
        }
    }
}

proof fn tail_tuple(s: Seq<char>, i: int, t: Seq<char>, j: int)
    requires
        same_tail(s, i, t, j),
    ensures
        match tuple_at(s, i) {
            Some((e, n)) => tuple_at(t, j) == Some((e + (j - i), n)) && i <= e <= s.len()
                && same_tail(s, e, t, e + (j - i)),
            None => tuple_at(t, j) is None,
        },
{
    tail_char(s, i, t, j, '(');
    if char_at(s, i, '(') {
        tail_placeholders(s, i + 1, t, j + 1);
    }
}

proof fn tail_tuples(s: Seq<char>, i: int, t: Seq<char>, j: int, arity: nat)
    requires
        same_tail(s, i, t, j),
    ensures
        match tuples_end(s, i, arity) {
            Some(e) => tuples_end(t, j, arity) == Some(e + (j - i)),
            None => tuples_end(t, j, arity) is None,
        },
    decreases s.len() - i,
{
    tail_space(s, i, t, j);
    let a = after_space(s, i);
    let b = after_space(t, j);
    tail_char(s, a, t, b, ',');
    if char_at(s, a, ',') {
        tail_space(s, a + 1, t, b + 1);
        let o = after_space(s, a + 1);
        let p = after_space(t, b + 1);
        tail_tuple(s, o, t, p);
        tuple_advances(s, o);
        match tuple_at(s, o) {
            Some((e, n)) => {
                if n == arity {
                    tail_tuples(s, e, t, e + (p - o), arity);
                }
            },
            None => {
                assert(only_list_chars(s, o) == only_list_chars(t, p)) by {
                    if only_list_chars(s, o) {
                        assert forall|x: int| p <= x < t.len() implies list_char(
                            #[trigger] t[x],
                        ) by {
                            assert(s[x - (p - o)] == t[x]);
                        }
                    }
                    if only_list_chars(t, p) {
                        assert forall|x: int| o <= x < s.len() implies list_char(
                            #[trigger] s[x],
                        ) by {
                            assert(s[x] == t[x + (p - o)]);
                        }
                    }
                }
            },
        }
    }
}

proof fn tail_word(
    s: Seq<char>,
    i: int,
    t: Seq<char>,
    j: int,
    lower: Seq<char>,
    upper: Seq<char>,
)
    requires
        same_tail(s, i, t, j),
        i > 0,
        j > 0,
        s[i - 1] == t[j - 1],
        lower.len() == upper.len(),
    ensures
        word_at(s, i, lower, upper) == word_at(t, j, lower, upper),
        word_at(s, i, lower, upper) ==> stands_alone(s, i, lower.len() as int) == stands_alone(
            t,
            j,
            lower.len() as int,
        ) && same_tail(s, i + lower.len(), t, j + lower.len()),
{
    let n = lower.len() as int;
    if i + n <= s.len() {
        assert forall|x: int| 0 <= x < n implies s[i + x] == #[trigger] t[j + x] by {
            assert(s[i + x] == t[i + x + (j - i)]);
        }
        if word_at(s, i, lower, upper) {
            assert forall|x: int| 0 <= x < n implies t[j + x] == #[trigger] lower[x] || t[j + x]
                == upper[x] by {
                assert(s[i + x] == t[j + x]);
            }
        }
        if word_at(t, j, lower, upper) {
            assert forall|x: int| 0 <= x < n implies s[i + x] == #[trigger] lower[x] || s[i + x]
                == upper[x] by {
                assert(s[i + x] == t[j + x]);
            }
        }
        if i + n < s.len() {
            assert(s[i + n] == t[i + n + (j - i)]);
        }
    }
}

proof fn tail_lists(s: Seq<char>, i: int, t: Seq<char>, j: int)
    requires
        same_tail(s, i, t, j),
        i > 0,
        j > 0,
        s[i - 1] == t[j - 1],
    ensures
        match values_at(s, i) {
            Some(e) => values_at(t, j) == Some(e + (j - i)),
            None => values_at(t, j) is None,
        },
        match in_at(s, i) {
            Some(e) => in_at(t, j) == Some(e + (j - i)),
            None => in_at(t, j) is None,
        },
{
    letters();
    tail_word(s, i, t, j, "values"@, "VALUES"@);
    tail_word(s, i, t, j, "in"@, "IN"@);
    if word_at(s, i, "values"@, "VALUES"@) && stands_alone(s, i, 6) {
        tail_space(s, i + 6, t, j + 6);
        let a = after_space(s, i + 6);
        tail_tuple(s, a, t, after_space(t, j + 6));
        if let Some((e, n)) = tuple_at(s, a) {
            tail_tuples(s, e, t, e + (j - i), n);
        }
    }
    if word_at(s, i, "in"@, "IN"@) && stands_alone(s, i, 2) {
        tail_space(s, i + 2, t, j + 2);
        tail_tuple(s, after_space(s, i + 2), t, after_space(t, j + 2));
    }
}

/// What text becomes depends on it and on the character before it alone.
proof fn tail_collapses_alike(s: Seq<char>, i: int, t: Seq<char>, j: int)
    requires
        same_tail(s, i, t, j),
        i > 0,
        j > 0,
        s[i - 1] == t[j - 1],
    ensures
        collapsed(s, i) == collapsed(t, j),
    decreases s.len() - i,
{
    if i < s.len() {
        tail_lists(s, i, t, j);
        lists_advance(s, i);
        assert(s[i] == t[i + (j - i)]);
        let end = if values_at(s, i) is Some {
            values_at(s, i)->0
        } else if in_at(s, i) is Some {
            in_at(s, i)->0
        } else {
            i + 1
        };
        assert(s[end - 1] == t[end - 1 + (j - i)]);
        tail_collapses_alike(s, end, t, end + (j - i));
    }
}

/// Up to position `l`, at which a letter of a word of its own stands, the texts are the same.
spec fn same_head(s: Seq<char>, t: Seq<char>, l: int) -> bool {
    &&& 0 <= l < s.len()
    &&& l < t.len()
    &&& forall|x: int| 0 <= x <= l ==> #[trigger] s[x] == t[x]
    &&& s[l] == 'i'
    &&& l > 0 ==> !identifier(s[l - 1])
}

proof fn head_space(s: Seq<char>, t: Seq<char>, l: int, i: int)
    requires
        same_head(s, t, l),
        0 <= i <= l,
    ensures
        after_space(s, i) == after_space(t, i),
        i <= after_space(s, i) <= l,
    decreases l - i,
{
    assert(s[i] == t[i]);
    if i < l && is_space(s[i]) {
        head_space(s, t, l, i + 1);
    }
}

proof fn head_placeholders(s: Seq<char>, t: Seq<char>, l: int, i: int)
    requires
        same_head(s, t, l),
        0 <= i <= l,
    ensures
        placeholders(s, i) == placeholders(t, i),
        placeholders(s, i) matches Some((e, _)) ==> i < e <= l,
    decreases l - i,
{
    head_space(s, t, l, i);
    let a = after_space(s, i);
    assert(s[a] == t[a]);
    if char_at(s, a, '?') {
        head_space(s, t, l, a + 1);
        let b = after_space(s, a + 1);
        assert(s[b] == t[b]);
        if char_at(s, b, ',') {
            head_placeholders(s, t, l, b + 1);
        }
    }
}

proof fn head_tuple(s: Seq<char>, t: Seq<char>, l: int, i: int)
    requires
        same_head(s, t, l),
        0 <= i <= l,
    ensures
        tuple_at(s, i) == tuple_at(t, i),
        tuple_at(s, i) matches Some((e, _)) ==> i < e <= l,
{
    assert(s[i] == t[i]);
    if char_at(s, i, '(') {
        head_placeholders(s, t, l, i + 1);
    }
}

proof fn head_tuples(s: Seq<char>, t: Seq<char>, l: int, i: int, arity: nat)
    requires
        same_head(s, t, l),
        0 <= i <= l,
    ensures
        tuples_end(s, i, arity) == tuples_end(t, i, arity),
        tuples_end(s, i, arity) matches Some(e) ==> i <= e <= l,
    decreases l - i,
{
    head_space(s, t, l, i);
    let a = after_space(s, i);
    assert(s[a] == t[a]);
    if char_at(s, a, ',') {
        head_space(s, t, l, a + 1);
        let o = after_space(s, a + 1);
        head_tuple(s, t, l, o);
        assert(!list_char(s[l]) && !list_char(t[l]));
        if let Some((e, n)) = tuple_at(s, o) {
            if n == arity {
                head_tuples(s, t, l, e, arity);
            }
        }
    }
}

proof fn head_word(
    s: Seq<char>,
    t: Seq<char>,
    l: int,
    i: int,
    lower: Seq<char>,
    upper: Seq<char>,
)
    requires
        same_head(s, t, l),
        0 <= i < l,
        lower.len() == upper.len(),
        forall|x: int| 0 <= x < lower.len() ==> identifier(#[trigger] lower[x]),
        forall|x: int| 0 <= x < upper.len() ==> identifier(#[trigger] upper[x]),
    ensures
        word_at(s, i, lower, upper) == word_at(t, i, lower, upper),
        word_at(s, i, lower, upper) ==> i + lower.len() < l && stands_alone(
            s,
            i,
            lower.len() as int,
        ) == stands_alone(t, i, lower.len() as int),
{
    let n = lower.len() as int;
    assert(s[l - 1] == t[l - 1]);
    if i + n >= l {
        let x = l - 1 - i;
        if x < n {
            assert(identifier(lower[x]) && identifier(upper[x]));
            assert(i + x == l - 1);
            assert(!word_at(s, i, lower, upper));
            assert(!word_at(t, i, lower, upper));
        } else {
            assert(n == l - i - 1 + 1 || n > x);
        }
    } else {
        assert forall|x: int| 0 <= x < n implies s[i + x] == #[trigger] t[i + x] by {}
        if word_at(s, i, lower, upper) {
            assert forall|x: int| 0 <= x < n implies t[i + x] == #[trigger] lower[x] || t[i + x]
                == upper[x] by {
                assert(s[i + x] == t[i + x]);
            }
        }
        if word_at(t, i, lower, upper) {
            assert forall|x: int| 0 <= x < n implies s[i + x] == #[trigger] lower[x] || s[i + x]
                == upper[x] by {
                assert(s[i + x] == t[i + x]);
            }
        }
        assert(s[i + n] == t[i + n]);
        if i > 0 {
            assert(s[i - 1] == t[i - 1]);
        }
    }
}

proof fn head_lists(s: Seq<char>, t: Seq<char>, l: int, i: int)
    requires
        same_head(s, t, l),
        0 <= i < l,
    ensures
        values_at(s, i) == values_at(t, i),
        in_at(s, i) == in_at(t, i),
        values_at(s, i) matches Some(e) ==> i < e <= l,
        in_at(s, i) matches Some(e) ==> i < e <= l,
{
    letters();
    head_word(s, t, l, i, "values"@, "VALUES"@);
    head_word(s, t, l, i, "in"@, "IN"@);
    lists_advance(s, i);
    if word_at(s, i, "values"@, "VALUES"@) && stands_alone(s, i, 6) {
        head_space(s, t, l, i + 6);
        let a = after_space(s, i + 6);
        head_tuple(s, t, l, a);
        if let Some((e, n)) = tuple_at(s, a) {
            head_tuples(s, t, l, e, n);
        }
    }
    if word_at(s, i, "in"@, "IN"@) && stands_alone(s, i, 2) {
        head_space(s, t, l, i + 2);
        head_tuple(s, t, l, after_space(s, i + 2));
    }
}

/// Text before a word collapses alike, whatever comes of the word.
proof fn head_collapses_alike(s: Seq<char>, t: Seq<char>, l: int, i: int)
    requires
        same_head(s, t, l),
        0 <= i <= l,
        collapsed(s, l) == collapsed(t, l),
    ensures
        collapsed(s, i) == collapsed(t, i),
    decreases l - i,
{
    if i < l {
        head_lists(s, t, l, i);
        assert(s[i] == t[i]);
        let end = if values_at(s, i) is Some {
            values_at(s, i)->0
        } else if in_at(s, i) is Some {
            in_at(s, i)->0
        } else {
            i + 1
        };
        head_collapses_alike(s, t, l, end);
    }
}

/// A statement with a list of `n` placeholders after `in`.
pub open spec fn with_in_list(before: Seq<char>, n: nat, after: Seq<char>) -> Seq<char> {
    before + "in ("@ + question_list(n) + seq![')'] + after
}

/// Statements that differ only in how many placeholders an `in` list holds have one shape.
pub proof fn in_lists_have_one_shape(before: Seq<char>, n: nat, m: nat, after: Seq<char>)
    requires
        n >= 1,
        m >= 1,
        before.len() > 0 ==> !identifier(before.last()),
    ensures
        shape_of(with_in_list(before, n, after)) == shape_of(with_in_list(before, m, after)),
{
    let s = with_in_list(before, n, after);
    let t = with_in_list(before, m, after);
    let l = before.len() as int;
    in_lists_of_any_length_collapse(before, n, after);
    in_lists_of_any_length_collapse(before, m, after);
    reveal_strlit("in (");
    let i = l + 4 + question_list(n).len() + 1;
    let j = l + 4 + question_list(m).len() + 1;
    assert(s[i - 1] == ')' && t[j - 1] == ')');
    assert forall|x: int| #![trigger s[x]] i <= x < s.len() implies s[x] == t[x + (j - i)] by {
        assert(s[x] == after[x - i]);
        assert(t[x + (j - i)] == after[x - i]);
    }
    tail_collapses_alike(s, i, t, j);
    lists_begin(s, l);
    lists_begin(t, l);
    assert(s[l] == 'i' && t[l] == 'i');
    assert(collapsed(s, l) == collapsed(t, l));
    assert forall|x: int| 0 <= x <= l implies #[trigger] s[x] == t[x] by {}
    if l > 0 {
        assert(s[l - 1] == before.last());
    }
    head_collapses_alike(s, t, l, 0);
}

} // verus!
