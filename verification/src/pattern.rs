//! Regular expressions.
use vstd::prelude::*;

verus! {

/// Whether a text is a regular expression.
pub uninterp spec fn is_pattern(pattern: Seq<char>) -> bool;

/// The groups of the first match of a regular expression in a text, the whole match first: none
/// where nothing matches, or where the expression is not one.
pub uninterp spec fn matched_groups(pattern: Seq<char>, text: Seq<char>) -> Option<
    Seq<Option<Seq<char>>>,
>;

/// A text with the first match of a regular expression replaced, where the replacement may name
/// groups of the match.
pub uninterp spec fn replaced_match(
    pattern: Seq<char>,
    text: Seq<char>,
    replacement: Seq<char>,
) -> Seq<char>;

/// A character that means something in a regular expression.
pub open spec fn is_meta(c: char) -> bool {
    ||| c == '\\' || c == '.' || c == '+' || c == '*' || c == '?'
    ||| c == '(' || c == ')' || c == '|' || c == '[' || c == ']' || c == '{' || c == '}'
    ||| c == '^' || c == '$' || c == '#' || c == '&' || c == '-' || c == '~'
}

/// A text as a regular expression that matches it alone: with a backslash before each character
/// that means something.
pub open spec fn escaped_text(text: Seq<char>) -> Seq<char>
    decreases text.len(),
{
    if text.len() == 0 {
        Seq::empty()
    } else if is_meta(text.last()) {
        escaped_text(text.drop_last()).push('\\').push(text.last())
    } else {
        escaped_text(text.drop_last()).push(text.last())
    }
}

pub open spec fn group_views(groups: Option<Vec<Option<String>>>) -> Option<
    Seq<Option<Seq<char>>>,
> {
    match groups {
        Some(g) => Some(g@.map_values(|s: Option<String>| crate::report::text_option(s))),
        None => None,
    }
}

/// `regex::Regex::new`: whether it accepts an expression depends on its text alone.
#[verifier::external_body]
pub(crate) fn valid_pattern(pattern: &str) -> (r: bool)
    ensures
        r == is_pattern(pattern@),
{
    regex::Regex::new(pattern).is_ok()
}

/// `regex::Regex::captures` with the expression `pattern`: the groups depend on the expression and
/// the text alone.
#[verifier::external_body]
pub(crate) fn captures(pattern: &str, text: &str) -> (r: Option<Vec<Option<String>>>)
    ensures
        group_views(r) == matched_groups(pattern@, text@),
{
    let regex = regex::Regex::new(pattern).ok()?;
    let groups = regex.captures(text)?;
    Some(groups.iter().map(|group| group.map(|g| g.as_str().to_owned())).collect())
}

/// `regex::Regex::replace` with the expression `pattern`: the text depends on the expression, the
/// text and the replacement alone.
#[verifier::external_body]
pub(crate) fn replace_first(pattern: &str, text: &str, replacement: &str) -> (r: String)
    requires
        is_pattern(pattern@),
    ensures
        r@ == replaced_match(pattern@, text@, replacement@),
{
    match regex::Regex::new(pattern) {
        Ok(regex) => regex.replace(text, replacement).into_owned(),
        Err(_) => String::new(),
    }
}

/// `regex::escape` writes a backslash before each of the eighteen characters that mean something in
/// a regular expression, and every other character as it is.
#[verifier::external_body]
pub(crate) fn escape(text: &str) -> (r: String)
    ensures
        r@ == escaped_text(text@),
{
    regex::escape(text)
}

/// The group `i` of a match, where it took part.
pub open spec fn group_of(groups: Seq<Option<Seq<char>>>, i: int) -> Option<Seq<char>> {
    if 0 <= i < groups.len() {
        groups[i]
    } else {
        None
    }
}

/// The text of the group `i` of a match, empty where it took no part.
pub open spec fn group_text(groups: Seq<Option<Seq<char>>>, i: int) -> Seq<char> {
    match group_of(groups, i) {
        Some(s) => s,
        None => Seq::empty(),
    }
}

pub fn group(groups: &Vec<Option<String>>, i: usize) -> (r: Option<&String>)
    ensures
        match r {
            Some(s) => group_of(
                groups@.map_values(|s: Option<String>| crate::report::text_option(s)),
                i as int,
            ) == Some(s@),
            None => group_of(
                groups@.map_values(|s: Option<String>| crate::report::text_option(s)),
                i as int,
            ) is None,
        },
{
    if i < groups.len() {
        groups[i].as_ref()
    } else {
        None
    }
}

} // verus!
