//! Canonical routes, and how sessions move from one route to the next.
use crate::clock::{formatted_nanos, parse_formatted, parse_rfc3339, rfc3339_nanos};
use crate::compression::{decompress, decompress_lines, decompressed, sound_output};
use crate::join::{chain, grouped, ref_views, sort_by_keys, value_views, with_key};
use crate::model::{Transition, TransitionView};
use crate::moment::{from_timestamp, moment_at, Moment, EARLIEST, LATEST};
use crate::number::{apply, arithmetic, is_arithmetic, Number, Op};
use crate::order::{distinct_sorted, models, stable_sorted, stable_sorted_through, Key};
use crate::pattern::{
    captures, is_pattern, matched_groups, replace_first, replaced_match, valid_pattern,
};
use crate::rounding::{percentile, percentile_of};
use crate::text::{
    all_digits, append, append_str, before_char, chars_of, contains_text, cut_before, decimal,
    decimal_of, digits_only, digits_value, ends, ends_with, find_at, find_is_first, glue2, glue3,
    halves, is_blank, is_digit, join, joined, lines, lines_of, number_of, parsed_signed, same,
    signed_number, slice_of, split, split_at_each, split_is_not_empty, split_once, stands_at,
    starts, starts_with, string_of,
    text_from_bytes, texts, trimmed, views,
};
use vstd::prelude::*;

verus! {

/// A rule that writes the routes which match a pattern in one way.
#[derive(Clone, Debug)]
pub struct RouteRule {
    pub pattern: String,
    pub replace: String,
}

/// The rules of a project, in the order in which they are tried.
#[derive(Clone, Debug)]
pub struct RouteRules {
    pub routes: Vec<RouteRule>,
}

/// A rule as its pattern and its replacement.
pub type Rule = (Seq<char>, Seq<char>);

impl View for RouteRule {
    type V = Rule;

    open spec fn view(&self) -> Rule {
        (self.pattern@, self.replace@)
    }
}

/// Why route rules are refused.
#[derive(Debug)]
pub enum RouteError {
    /// The pattern is not a regular expression.
    InvalidPattern(String),
    /// A matching group cannot hold a comma, which separates the groups.
    Comma(String),
    /// A matching group cannot hold a question mark.
    QuestionMark(String),
    /// The replacement of a matching group cannot depend on what was matched.
    Capture(String, String),
}

pub enum RouteErrorView {
    InvalidPattern(Seq<char>),
    Comma(Seq<char>),
    QuestionMark(Seq<char>),
    Capture(Seq<char>, Seq<char>),
}

impl View for RouteError {
    type V = RouteErrorView;

    open spec fn view(&self) -> RouteErrorView {
        match self {
            RouteError::InvalidPattern(p) => RouteErrorView::InvalidPattern(p@),
            RouteError::Comma(p) => RouteErrorView::Comma(p@),
            RouteError::QuestionMark(p) => RouteErrorView::QuestionMark(p@),
            RouteError::Capture(p, r) => RouteErrorView::Capture(p@, r@),
        }
    }
}

impl RouteErrorView {
    pub open spec fn message(self) -> Seq<char> {
        match self {
            RouteErrorView::InvalidPattern(p) => "invalid route pattern `"@ + p + "`"@,
            RouteErrorView::Comma(p) => "ALP matching-group pattern cannot contain a comma: "@ + p,
            RouteErrorView::QuestionMark(p) =>
                "ALP matching-group pattern cannot contain `?`; write optional parts as alternatives: "@
                + p,
            RouteErrorView::Capture(p, r) =>
                "ALP matching groups require a canonical replacement without captures: "@ + p
                + " -> "@ + r,
        }
    }
}

impl RouteError {
    pub fn message(&self) -> (r: String)
        ensures
            r@ == self@.message(),
    {
        match self {
            RouteError::InvalidPattern(p) => glue3("invalid route pattern `", p.as_str(), "`"),
            RouteError::Comma(p) => glue2(
                "ALP matching-group pattern cannot contain a comma: ",
                p.as_str(),
            ),
            RouteError::QuestionMark(p) => glue2(
                "ALP matching-group pattern cannot contain `?`; write optional parts as alternatives: ",
                p.as_str(),
            ),
            RouteError::Capture(p, r) => {
                let text = glue3(
                    "ALP matching groups require a canonical replacement without captures: ",
                    p.as_str(),
                    " -> ",
                );
                glue2(text.as_str(), r.as_str())
            },
        }
    }
}

/// The first rule whose pattern is not a regular expression.
pub open spec fn first_invalid(rules: Seq<Rule>) -> Option<Seq<char>>
    decreases rules.len(),
{
    if rules.len() == 0 {
        None
    } else if !is_pattern(rules[0].0) {
        Some(rules[0].0)
    } else {
        first_invalid(rules.skip(1))
    }
}

/// The replacement of the first rule with exactly this pattern.
pub open spec fn rule_named(rules: Seq<Rule>, pattern: Seq<char>) -> Option<Seq<char>>
    decreases rules.len(),
{
    if rules.len() == 0 {
        None
    } else if rules[0].0 == pattern {
        Some(rules[0].1)
    } else {
        rule_named(rules.skip(1), pattern)
    }
}

/// What the first rule that matches makes of a route, which stays as it is without one.
pub open spec fn rewritten(rules: Seq<Rule>, uri: Seq<char>) -> Seq<char>
    decreases rules.len(),
{
    if rules.len() == 0 {
        uri
    } else if matched_groups(rules[0].0, uri) is Some {
        replaced_match(rules[0].0, uri, rules[0].1)
    } else {
        rewritten(rules.skip(1), uri)
    }
}

/// The rules that stand next to each other and have one replacement, with that replacement.
pub open spec fn bundles(rules: Seq<Rule>) -> Seq<(Seq<Seq<char>>, Seq<char>)>
    decreases rules.len(),
{
    if rules.len() == 0 {
        Seq::empty()
    } else {
        let rest = bundles(rules.drop_last());
        let rule = rules.last();
        if rest.len() > 0 && rest.last().1 == rule.1 {
            rest.drop_last().push((rest.last().0.push(rule.0), rule.1))
        } else {
            rest.push((seq![rule.0], rule.1))
        }
    }
}

pub open spec fn bracketed() -> spec_fn(Seq<char>) -> Seq<char> {
    |s: Seq<char>| "("@ + s + ")"@
}

/// The matching group of patterns: one pattern stands alone, several are alternatives.
pub open spec fn group_pattern(sources: Seq<Seq<char>>) -> Seq<char> {
    if sources.len() == 1 {
        sources[0]
    } else {
        join(sources.map_values(bracketed()), "|"@)
    }
}

/// The matching groups with the routes that they stand for.
pub open spec fn groups_of(rules: Seq<Rule>) -> Seq<Rule> {
    bundles(rules).map_values(|b: (Seq<Seq<char>>, Seq<char>)| (group_pattern(b.0), b.1))
}

/// The canonical route of `uri`: the replacement of the rule or the matching group that `uri`
/// spells out, or else what the first rule that matches makes of it.
pub open spec fn canonical(rules: Seq<Rule>, uri: Seq<char>) -> Seq<char> {
    match rule_named(rules, uri) {
        Some(replace) => replace,
        None => match rule_named(groups_of(rules), uri) {
            Some(replace) => replace,
            None => rewritten(rules, uri),
        },
    }
}

/// What stops one rule from becoming a matching group.
pub open spec fn group_fault(rule: Rule) -> Option<RouteErrorView> {
    if contains_text(rule.0, ","@) {
        Some(RouteErrorView::Comma(rule.0))
    } else if contains_text(rule.0, "?"@) {
        Some(RouteErrorView::QuestionMark(rule.0))
    } else if contains_text(rule.1, "$"@) {
        Some(RouteErrorView::Capture(rule.0, rule.1))
    } else {
        None
    }
}

/// The fault of the first rule that has one.
pub open spec fn first_fault(rules: Seq<Rule>) -> Option<RouteErrorView>
    decreases rules.len(),
{
    if rules.len() == 0 {
        None
    } else if group_fault(rules[0]) is Some {
        group_fault(rules[0])
    } else {
        first_fault(rules.skip(1))
    }
}

/// The groups with commas between them.
pub open spec fn matching_groups(rules: Seq<Rule>) -> Seq<char> {
    join(groups_of(rules).map_values(|g: Rule| g.0), ","@)
}

/// Route rules whose patterns are all regular expressions.
#[derive(Debug)]
pub struct RouteNormalizer {
    rules: Vec<RouteRule>,
}

impl View for RouteNormalizer {
    type V = Seq<Rule>;

    closed spec fn view(&self) -> Seq<Rule> {
        value_views(self.rules@)
    }
}

/// The rules of a project, or why they cannot be read.
pub type LoadedRules = Result<Seq<Rule>, Seq<char>>;

pub open spec fn loaded(rules: Result<RouteNormalizer, String>) -> LoadedRules {
    match rules {
        Ok(normalizer) => Ok(normalizer@),
        Err(error) => Err(error@),
    }
}

/// Whether `part` stands somewhere in `s`.
pub fn has_text(s: &str, part: &str) -> (r: bool)
    ensures
        r == contains_text(s@, part@),
{
    let chars = chars_of(s);
    let p = chars_of(part);
    let found = find_at(chars.as_slice(), p.as_slice(), 0);
    proof {
        find_is_first(s@, part@, 0);
    }
    found.is_some()
}

impl RouteNormalizer {
    #[verifier::type_invariant]
    spec fn well_formed(self) -> bool {
        forall|i: int| 0 <= i < self.rules@.len() ==> is_pattern((#[trigger] self.rules@[i]).pattern@)
    }

    /// Takes rules whose patterns are all regular expressions, and refuses others.
    pub fn from_rules(rules: RouteRules) -> (r: Result<RouteNormalizer, RouteError>)
        ensures
            match r {
                Ok(normalizer) => normalizer@ == value_views(rules.routes@) && first_invalid(
                    value_views(rules.routes@),
                ) is None,
                Err(error) => first_invalid(value_views(rules.routes@)) matches Some(p) && error@
                    == RouteErrorView::InvalidPattern(p),
            },
    {
        let ghost all = value_views(rules.routes@);
        let mut i: usize = 0;
        assert(all.skip(0) == all);
        while i < rules.routes.len()
            invariant
                i <= rules.routes@.len(),
                all == value_views(rules.routes@),
                first_invalid(all) == first_invalid(all.skip(i as int)),
                forall|j: int|
                    0 <= j < i ==> is_pattern((#[trigger] rules.routes@[j]).pattern@),
            decreases rules.routes.len() - i,
        {
            assert(all.skip(i as int)[0] == rules.routes@[i as int]@);
            if !valid_pattern(rules.routes[i].pattern.as_str()) {
                return Err(RouteError::InvalidPattern(rules.routes[i].pattern.clone()));
            }
            assert(all.skip(i as int).skip(1) == all.skip(i + 1));
            i += 1;
        }
        let normalizer = RouteNormalizer { rules: rules.routes };
        Ok(normalizer)
    }

    fn named(&self, pattern: &str) -> (r: Option<&String>)
        ensures
            match r {
                Some(s) => rule_named(self@, pattern@) == Some(s@),
                None => rule_named(self@, pattern@) is None,
            },
    {
        let mut i: usize = 0;
        assert(self@.skip(0) == self@);
        while i < self.rules.len()
            invariant
                i <= self.rules@.len(),
                rule_named(self@, pattern@) == rule_named(self@.skip(i as int), pattern@),
            decreases self.rules.len() - i,
        {
            assert(self@.skip(i as int)[0] == self.rules@[i as int]@);
            if same(self.rules[i].pattern.as_str(), pattern) {
                return Some(&self.rules[i].replace);
            }
            assert(self@.skip(i as int).skip(1) == self@.skip(i + 1));
            i += 1;
        }
        None
    }

    fn rewrite(&self, uri: &str) -> (r: String)
        ensures
            r@ == rewritten(self@, uri@),
    {
        proof {
            use_type_invariant(self);
        }
        let mut i: usize = 0;
        assert(self@.skip(0) == self@);
        while i < self.rules.len()
            invariant
                i <= self.rules@.len(),
                forall|j: int|
                    0 <= j < self.rules@.len() ==> is_pattern(
                        (#[trigger] self.rules@[j]).pattern@,
                    ),
                rewritten(self@, uri@) == rewritten(self@.skip(i as int), uri@),
            decreases self.rules.len() - i,
        {
            assert(self@.skip(i as int)[0] == self.rules@[i as int]@);
            let found = captures(self.rules[i].pattern.as_str(), uri);
            if found.is_some() {
                return replace_first(
                    self.rules[i].pattern.as_str(),
                    uri,
                    self.rules[i].replace.as_str(),
                );
            }
            assert(self@.skip(i as int).skip(1) == self@.skip(i + 1));
            i += 1;
        }
        uri.to_owned()
    }

    /// The matching groups that alp is given, each with the route that it stands for.
    fn alp_groups(&self) -> (r: Vec<RouteRule>)
        ensures
            value_views(r@) == groups_of(self@),
    {
        let mut sources: Vec<Vec<Vec<char>>> = Vec::new();
        let mut replaces: Vec<String> = Vec::new();
        let mut i: usize = 0;
        assert(self@.take(0) == Seq::<Rule>::empty());
        assert(bundle_views(sources@, replaces@) == bundles(self@.take(0)));
        while i < self.rules.len()
            invariant
                i <= self.rules@.len(),
                sources@.len() == replaces@.len(),
                bundle_views(sources@, replaces@) == bundles(self@.take(i as int)),
            decreases self.rules.len() - i,
        {
            let rule = &self.rules[i];
            let ghost rest = bundle_views(sources@, replaces@);
            proof {
                assert(self@.take(i + 1).drop_last() == self@.take(i as int));
                assert(self@.take(i + 1).last() == rule@);
            }
            let n: usize = sources.len();
            if n > 0 && same(replaces[n - 1].as_str(), rule.replace.as_str()) {
                let mut last = sources.pop().unwrap();
                let ghost was = last@;
                last.push(chars_of(rule.pattern.as_str()));
                assert(views(last@) == views(was).push(rule.pattern@));
                sources.push(last);
                assert(bundle_views(sources@, replaces@) == rest.drop_last().push(
                    (rest.last().0.push(rule.pattern@), rule.replace@),
                ));
            } else {
                let mut first: Vec<Vec<char>> = Vec::new();
                first.push(chars_of(rule.pattern.as_str()));
                assert(views(first@) == seq![rule.pattern@]);
                sources.push(first);
                replaces.push(rule.replace.clone());
                assert(bundle_views(sources@, replaces@) == rest.push(
                    (seq![rule.pattern@], rule.replace@),
                ));
            }
            i += 1;
        }
        assert(self@.take(i as int) == self@);
        let ghost each = |b: (Seq<Seq<char>>, Seq<char>)| (group_pattern(b.0), b.1);
        let ghost all = bundles(self@);
        let mut out: Vec<RouteRule> = Vec::new();
        let mut j: usize = 0;
        while j < sources.len()
            invariant
                j <= sources@.len(),
                sources@.len() == replaces@.len(),
                all == bundle_views(sources@, replaces@),
                each == (|b: (Seq<Seq<char>>, Seq<char>)| (group_pattern(b.0), b.1)),
                value_views(out@) == all.take(j as int).map_values(each),
            decreases sources.len() - j,
        {
            assert(all[j as int] == (views(sources@[j as int]@), replaces@[j as int]@));
            let pattern = grouped_pattern(&sources[j]);
            let group = RouteRule { pattern, replace: replaces[j].clone() };
            let ghost was = out@;
            out.push(group);
            assert(value_views(out@) == value_views(was).push(group@));
            assert(all.take(j + 1).map_values(each) == all.take(j as int).map_values(each).push(
                each(all[j as int]),
            ));
            j += 1;
        }
        assert(all.take(j as int) == all);
        out
    }

    pub fn normalize(&self, uri: &str) -> (r: String)
        ensures
            r@ == canonical(self@, uri@),
    {
        match self.named(uri) {
            Some(replace) => {
                return replace.clone();
            },
            None => {},
        }
        let groups = self.alp_groups();
        let ghost all = groups_of(self@);
        let mut i: usize = 0;
        assert(all.skip(0) == all);
        while i < groups.len()
            invariant
                i <= groups@.len(),
                all == value_views(groups@),
                all == groups_of(self@),
                rule_named(self@, uri@) is None,
                rule_named(all, uri@) == rule_named(all.skip(i as int), uri@),
            decreases groups.len() - i,
        {
            assert(all.skip(i as int)[0] == groups@[i as int]@);
            if same(groups[i].pattern.as_str(), uri) {
                return groups[i].replace.clone();
            }
            assert(all.skip(i as int).skip(1) == all.skip(i + 1));
            i += 1;
        }
        self.rewrite(uri)
    }

    /// The matching groups that alp is given, with commas between them. A route keeps one group
    /// where its rules stand next to each other.
    pub fn alp_matching_groups(&self) -> (r: Result<String, RouteError>)
        ensures
            match r {
                Ok(text) => first_fault(self@) is None && text@ == matching_groups(self@),
                Err(error) => first_fault(self@) == Some(error@),
            },
    {
        let mut i: usize = 0;
        assert(self@.skip(0) == self@);
        while i < self.rules.len()
            invariant
                i <= self.rules@.len(),
                first_fault(self@) == first_fault(self@.skip(i as int)),
            decreases self.rules.len() - i,
        {
            let rule = &self.rules[i];
            assert(self@.skip(i as int)[0] == rule@);
            if has_text(rule.pattern.as_str(), ",") {
                return Err(RouteError::Comma(rule.pattern.clone()));
            }
            if has_text(rule.pattern.as_str(), "?") {
                return Err(RouteError::QuestionMark(rule.pattern.clone()));
            }
            if has_text(rule.replace.as_str(), "$") {
                return Err(RouteError::Capture(rule.pattern.clone(), rule.replace.clone()));
            }
            assert(self@.skip(i as int).skip(1) == self@.skip(i + 1));
            i += 1;
        }
        let groups = self.alp_groups();
        let ghost first = |g: Rule| g.0;
        let ghost all = groups_of(self@);
        let mut parts: Vec<Vec<char>> = Vec::new();
        let mut j: usize = 0;
        while j < groups.len()
            invariant
                j <= groups@.len(),
                all == value_views(groups@),
                first == (|g: Rule| g.0),
                views(parts@) == all.take(j as int).map_values(first),
            decreases groups.len() - j,
        {
            let ghost was = parts@;
            let part = chars_of(groups[j].pattern.as_str());
            parts.push(part);
            assert(all[j as int] == groups@[j as int]@);
            assert(views(parts@) == views(was).push(part@));
            assert(all.take(j + 1).map_values(first) == all.take(j as int).map_values(first).push(
                all[j as int].0,
            ));
            j += 1;
        }
        assert(all.take(j as int) == all);
        let comma = chars_of(",");
        Ok(string_of(joined(parts.as_slice(), comma.as_slice()).as_slice()))
    }
}

spec fn bundle_views(sources: Seq<Vec<Vec<char>>>, replaces: Seq<String>) -> Seq<
    (Seq<Seq<char>>, Seq<char>),
> {
    Seq::new(sources.len(), |i: int| (views(sources[i]@), replaces[i]@))
}

fn grouped_pattern(sources: &Vec<Vec<char>>) -> (r: String)
    ensures
        r@ == group_pattern(views(sources@)),
{
    let ghost all = views(sources@);
    if sources.len() == 1 {
        assert(all[0] == sources@[0]@);
        return string_of(sources[0].as_slice());
    }
    let mut parts: Vec<Vec<char>> = Vec::new();
    let mut i: usize = 0;
    while i < sources.len()
        invariant
            i <= sources@.len(),
            all == views(sources@),
            views(parts@) == all.take(i as int).map_values(bracketed()),
        decreases sources.len() - i,
    {
        let mut part = chars_of("(");
        append(&mut part, sources[i].as_slice());
        append_str(&mut part, ")");
        let ghost was = parts@;
        parts.push(part);
        assert(all[i as int] == sources@[i as int]@);
        assert(views(parts@) == views(was).push(part@));
        assert(all.take(i + 1).map_values(bracketed()) == all.take(i as int).map_values(
            bracketed(),
        ).push(bracketed()(all[i as int])));
        i += 1;
    }
    assert(all.take(i as int) == all);
    let bar = chars_of("|");
    string_of(joined(parts.as_slice(), bar.as_slice()).as_slice())
}

/// The patterns of the bundles one after the other.
pub open spec fn bundled_patterns(groups: Seq<(Seq<Seq<char>>, Seq<char>)>) -> Seq<Seq<char>> {
    chain(groups.map_values(|b: (Seq<Seq<char>>, Seq<char>)| b.0))
}

/// Bundling keeps every pattern, in the order of the rules, under the replacement of its rule;
/// two groups that follow each other stand for different routes, and none is empty.
pub proof fn bundling_keeps_the_rule_order(rules: Seq<Rule>)
    ensures
        bundled_patterns(bundles(rules)) == rules.map_values(|r: Rule| r.0),
        forall|i: int|
            0 <= i < bundles(rules).len() ==> (#[trigger] bundles(rules)[i]).0.len() > 0,
        forall|i: int, j: int|
            0 <= i && j == i + 1 && j < bundles(rules).len() ==> (#[trigger] bundles(rules)[i]).1
                != (#[trigger] bundles(rules)[j]).1,
        rules.len() > 0 ==> bundles(rules).len() > 0 && bundles(rules).last().1 == rules.last().1,
    decreases rules.len(),
{
    let sources = |b: (Seq<Seq<char>>, Seq<char>)| b.0;
    let pattern = |r: Rule| r.0;
    let all = bundles(rules);
    if rules.len() == 0 {
        assert(all.map_values(sources) == Seq::<Seq<Seq<char>>>::empty());
        assert(rules.map_values(pattern) == Seq::<Seq<char>>::empty());
    } else {
        bundling_keeps_the_rule_order(rules.drop_last());
        let rest = bundles(rules.drop_last());
        let rule = rules.last();
        assert(rules.map_values(pattern) == rules.drop_last().map_values(pattern).push(rule.0));
        if rest.len() > 0 && rest.last().1 == rule.1 {
            assert(all.map_values(sources).drop_last() == rest.map_values(sources).drop_last());
            assert(bundled_patterns(all) == bundled_patterns(rest).push(rule.0));
            assert forall|i: int, j: int| 0 <= i && j == i + 1 && j < all.len() implies (
            #[trigger] all[i]).1 != (#[trigger] all[j]).1 by {
                assert(rest[i].1 != rest[j].1);
            }
        } else {
            assert(all.map_values(sources).drop_last() == rest.map_values(sources));
            assert(bundled_patterns(all) == bundled_patterns(rest).push(rule.0));
            assert forall|i: int, j: int| 0 <= i && j == i + 1 && j < all.len() implies (
            #[trigger] all[i]).1 != (#[trigger] all[j]).1 by {
                if j < rest.len() {
                    assert(rest[i].1 != rest[j].1);
                }
            }
        }
    }
}

/// A route that alp names by the pattern of a rule gets the replacement of the first rule with
/// this pattern, whatever the patterns match.
pub proof fn patterns_name_their_route(rules: Seq<Rule>, i: int)
    requires
        0 <= i < rules.len(),
        forall|j: int| 0 <= j < i ==> (#[trigger] rules[j]).0 != rules[i].0,
    ensures
        canonical(rules, rules[i].0) == rules[i].1,
{
    rule_is_named(rules, i);
}

proof fn rule_is_named(rules: Seq<Rule>, i: int)
    requires
        0 <= i < rules.len(),
        forall|j: int| 0 <= j < i ==> (#[trigger] rules[j]).0 != rules[i].0,
    ensures
        rule_named(rules, rules[i].0) == Some(rules[i].1),
    decreases i,
{
    if i > 0 {
        let rest = rules.skip(1);
        assert(rules[0].0 != rules[i].0);
        assert forall|j: int| 0 <= j < i - 1 implies (#[trigger] rest[j]).0 != rest[i - 1].0 by {
            assert(rules[j + 1].0 != rules[i].0);
        }
        rule_is_named(rest, i - 1);
    }
}

/// Pieces without the separator are what a split of their join gives back.
proof fn joined_pieces_split(parts: Seq<Seq<char>>, sep: char)
    requires
        parts.len() > 0,
        forall|i: int| 0 <= i < parts.len() ==> !(#[trigger] parts[i]).contains(sep),
    ensures
        split(join(parts, seq![sep]), sep) == parts,
    decreases parts.len(),
{
    if parts.len() == 1 {
        piece_splits(Seq::empty(), parts[0], sep);
        assert(split(Seq::<char>::empty(), sep) == seq![Seq::<char>::empty()]);
        assert(Seq::<char>::empty() + parts[0] == parts[0]);
        assert(split(parts[0], sep) == parts);
    } else {
        let head = parts.drop_last();
        assert forall|i: int| 0 <= i < head.len() implies !(#[trigger] head[i]).contains(sep) by {
            assert(head[i] == parts[i]);
        }
        joined_pieces_split(head, sep);
        let text = join(head, seq![sep]) + seq![sep];
        assert(text.drop_last() == join(head, seq![sep]));
        assert(split(text, sep) == head.push(Seq::empty()));
        piece_splits(text, parts.last(), sep);
        assert(split(text + parts.last(), sep) == parts);
    }
}

/// Characters that are no separator go on with the last piece.
proof fn piece_splits(before: Seq<char>, piece: Seq<char>, sep: char)
    requires
        !piece.contains(sep),
    ensures
        split(before + piece, sep) == split(before, sep).drop_last().push(
            split(before, sep).last() + piece,
        ),
    decreases piece.len(),
{
    split_is_not_empty(before, sep);
    let all = split(before, sep);
    if piece.len() == 0 {
        assert(before + piece == before);
        assert(all.last() + piece == all.last());
        assert(all.drop_last().push(all.last()) == all);
    } else {
        let head = piece.drop_last();
        assert forall|i: int| 0 <= i < head.len() implies head[i] != sep by {
            assert(head[i] == piece[i]);
            assert(piece.contains(piece[i]));
        }
        piece_splits(before, head, sep);
        assert((before + piece).drop_last() == before + head);
        assert(piece.contains(piece.last()));
        assert((before + piece).last() == piece.last());
        assert((all.last() + head).push(piece.last()) == all.last() + piece);
    }
}

proof fn faultless_rules(rules: Seq<Rule>, i: int)
    requires
        first_fault(rules) is None,
        0 <= i < rules.len(),
    ensures
        group_fault(rules[i]) is None,
    decreases i,
{
    if i > 0 {
        faultless_rules(rules.skip(1), i - 1);
        assert(rules.skip(1)[i - 1] == rules[i]);
    }
}

proof fn no_comma(pattern: Seq<char>)
    requires
        !contains_text(pattern, ","@),
    ensures
        !pattern.contains(','),
{
    reveal_strlit(",");
    if pattern.contains(',') {
        let at = choose|i: int| 0 <= i < pattern.len() && pattern[i] == ',';
        assert(pattern.skip(at).take(1) == ","@);
        assert(stands_at(pattern, ","@, at));
    }
}

proof fn joined_without(parts: Seq<Seq<char>>, sep: Seq<char>, c: char)
    requires
        forall|i: int| 0 <= i < parts.len() ==> !(#[trigger] parts[i]).contains(c),
        !sep.contains(c),
    ensures
        !join(parts, sep).contains(c),
    decreases parts.len(),
{
    if parts.len() > 1 {
        let head = parts.drop_last();
        assert forall|i: int| 0 <= i < head.len() implies !(#[trigger] head[i]).contains(c) by {
            assert(head[i] == parts[i]);
        }
        joined_without(head, sep, c);
        let left = join(head, sep);
        let text = left + sep + parts.last();
        if text.contains(c) {
            let at = choose|i: int| 0 <= i < text.len() && text[i] == c;
            if at < left.len() {
                assert(left[at] == c);
            } else if at < left.len() + sep.len() {
                assert(sep[at - left.len()] == c);
            } else {
                assert(parts.last()[at - left.len() - sep.len()] == c);
            }
        }
    }
}

proof fn groups_have_no_comma(sources: Seq<Seq<char>>)
    requires
        sources.len() > 0,
        forall|i: int| 0 <= i < sources.len() ==> !(#[trigger] sources[i]).contains(','),
    ensures
        !group_pattern(sources).contains(','),
{
    reveal_strlit("(");
    reveal_strlit(")");
    reveal_strlit("|");
    if sources.len() > 1 {
        let parts = sources.map_values(bracketed());
        assert forall|i: int| 0 <= i < parts.len() implies !(#[trigger] parts[i]).contains(',') by {
            let part = parts[i];
            if part.contains(',') {
                let at = choose|k: int| 0 <= k < part.len() && part[k] == ',';
                assert(part == "("@ + sources[i] + ")"@);
                assert(sources[i][at - 1] == ',');
            }
        }
        joined_without(parts, "|"@, ',');
    }
}

proof fn bundles_have_no_comma(rules: Seq<Rule>)
    requires
        forall|i: int| 0 <= i < rules.len() ==> !(#[trigger] rules[i]).0.contains(','),
    ensures
        forall|i: int, j: int|
            0 <= i < bundles(rules).len() && 0 <= j < bundles(rules)[i].0.len() ==> !(
            #[trigger] bundles(rules)[i].0[j]).contains(','),
    decreases rules.len(),
{
    if rules.len() > 0 {
        let head = rules.drop_last();
        assert forall|i: int| 0 <= i < head.len() implies !(#[trigger] head[i]).0.contains(',') by {
            assert(head[i] == rules[i]);
        }
        bundles_have_no_comma(head);
        let rest = bundles(head);
        let all = bundles(rules);
        assert forall|i: int, j: int|
            0 <= i < all.len() && 0 <= j < all[i].0.len() implies !(
        #[trigger] all[i].0[j]).contains(',') by {
            if i < rest.len() && j < rest[i].0.len() {
                assert(all[i].0[j] == rest[i].0[j]);
            } else {
                assert(all[i].0[j] == rules[rules.len() - 1].0);
            }
        }
    }
}

/// The text of the matching groups, split at its commas, gives the groups back, in their order,
/// where no rule is refused.
pub proof fn matching_groups_split_at_commas(rules: Seq<Rule>)
    requires
        rules.len() > 0,
        first_fault(rules) is None,
    ensures
        split(matching_groups(rules), ',') == groups_of(rules).map_values(|g: Rule| g.0),
{
    assert forall|i: int| 0 <= i < rules.len() implies !(#[trigger] rules[i]).0.contains(',') by {
        faultless_rules(rules, i);
        no_comma(rules[i].0);
    }
    bundles_have_no_comma(rules);
    bundling_keeps_the_rule_order(rules);
    let all = bundles(rules);
    let parts = groups_of(rules).map_values(|g: Rule| g.0);
    assert forall|i: int| 0 <= i < parts.len() implies !(#[trigger] parts[i]).contains(',') by {
        let sources = all[i].0;
        assert(sources.len() > 0);
        assert forall|j: int| 0 <= j < sources.len() implies !(#[trigger] sources[j]).contains(
            ',',
        ) by {
            assert(all[i].0[j] == sources[j]);
        }
        groups_have_no_comma(sources);
        assert(parts[i] == group_pattern(sources));
    }
    reveal_strlit(",");
    assert(","@ == seq![',']);
    joined_pieces_split(parts, ',');
}

/// A route that alp names by the text of a matching group gets the replacement that the rules of
/// this group share, where no rule and no group of another replacement is spelled like it.
pub proof fn groups_name_their_route(rules: Seq<Rule>, i: int)
    requires
        0 <= i < groups_of(rules).len(),
        forall|j: int|
            0 <= j < rules.len() && (#[trigger] rules[j]).0 == groups_of(rules)[i].0
                ==> rules[j].1 == groups_of(rules)[i].1,
        forall|j: int|
            0 <= j < groups_of(rules).len() && (#[trigger] groups_of(rules)[j]).0 == groups_of(
                rules,
            )[i].0 ==> groups_of(rules)[j].1 == groups_of(rules)[i].1,
    ensures
        canonical(rules, groups_of(rules)[i].0) == groups_of(rules)[i].1,
{
    let groups = groups_of(rules);
    named_by_one(rules, groups[i].0);
    named_by_one(groups, groups[i].0);
}

/// A rule that is found by its pattern is one of the rules; one is found where one has it.
proof fn named_by_one(rules: Seq<Rule>, pattern: Seq<char>)
    ensures
        match rule_named(rules, pattern) {
            Some(replace) => exists|j: int|
                0 <= j < rules.len() && (#[trigger] rules[j]).0 == pattern && rules[j].1 == replace,
            None => forall|j: int| 0 <= j < rules.len() ==> (#[trigger] rules[j]).0 != pattern,
        },
    decreases rules.len(),
{
    if rules.len() > 0 {
        let rest = rules.skip(1);
        named_by_one(rest, pattern);
        if rules[0].0 == pattern {
            assert(rule_named(rules, pattern) == Some(rules[0].1));
        } else {
            match rule_named(rest, pattern) {
                Some(replace) => {
                    let j = choose|j: int|
                        0 <= j < rest.len() && (#[trigger] rest[j]).0 == pattern && rest[j].1
                            == replace;
                    assert(rules[j + 1] == rest[j]);
                },
                None => {
                    assert forall|j: int| 0 <= j < rules.len() implies (#[trigger] rules[j]).0
                        != pattern by {
                        if j > 0 {
                            assert(rest[j - 1] == rules[j]);
                        }
                    }
                },
            }
        }
    }
}

/// How the lines of an access log are read. The logs of a run are those below `run_dir` whose
/// names begin with `prefix`.
#[derive(Clone, Copy, Debug)]
pub struct TransitionOptions<'a> {
    pub run_dir: &'a str,
    pub prefix: &'a str,
    pub rules: Option<&'a str>,
    pub time_field: &'a str,
    pub session_field: &'a str,
    pub method_field: &'a str,
    pub uri_field: &'a str,
}

/// One request of a session.
#[derive(Debug)]
pub struct SessionEvent {
    pub session: String,
    pub at: Moment,
    pub route: String,
}

#[verifier::ext_equal]
pub struct EventView {
    pub session: Seq<char>,
    pub at: int,
    pub route: Seq<char>,
}

impl View for SessionEvent {
    type V = EventView;

    open spec fn view(&self) -> EventView {
        EventView { session: self.session@, at: self.at.nanos as int, route: self.route@ }
    }
}

/// The last value that the fields of a line, with tabs between them, give to `key`.
pub open spec fn field_in(fields: Seq<Seq<char>>, key: Seq<char>) -> Option<Seq<char>>
    decreases fields.len(),
{
    if fields.len() == 0 {
        None
    } else {
        match split_once(fields.last(), ":"@) {
            Some((name, value)) => if name == key {
                Some(value)
            } else {
                field_in(fields.drop_last(), key)
            },
            None => field_in(fields.drop_last(), key),
        }
    }
}

/// The value of a field of a labelled line.
pub open spec fn ltsv_field(line: Seq<char>, key: Seq<char>) -> Option<Seq<char>> {
    field_in(split(line, '\t'), key)
}

fn ltsv_value(fields: &Vec<Vec<char>>, key: &str) -> (r: Option<Vec<char>>)
    ensures
        crate::text::chars_option(r) == field_in(views(fields@), key@),
{
    let ghost all = views(fields@);
    let name = chars_of(key);
    let colon = chars_of(":");
    let mut n: usize = fields.len();
    assert(all.take(n as int) == all);
    while n > 0
        invariant
            n <= fields@.len(),
            all == views(fields@),
            name@ == key@,
            colon@ == ":"@,
            field_in(all, key@) == field_in(all.take(n as int), key@),
        decreases n,
    {
        assert(all.take(n as int).last() == fields@[n - 1]@);
        assert(all.take(n as int).drop_last() == all.take(n - 1));
        match halves(fields[n - 1].as_slice(), colon.as_slice()) {
            Some((found, value)) => {
                if crate::text::same_chars(found.as_slice(), name.as_slice()) {
                    return Some(value);
                }
            },
            None => {},
        }
        n -= 1;
    }
    None
}

/// Ten to the power of `k`.
pub open spec fn power_of_ten(k: nat) -> nat
    decreases k,
{
    if k == 0 {
        1
    } else {
        10 * power_of_ten((k - 1) as nat)
    }
}

/// The nanoseconds that the digits after a decimal point write; those after the ninth are dropped.
pub open spec fn fraction_nanos(fraction: Seq<char>) -> nat {
    let kept = if fraction.len() > 9 {
        fraction.take(9)
    } else {
        fraction
    };
    digits_value(kept) * power_of_ten((9 - kept.len()) as nat)
}

/// The point in time that a text writes as seconds since the epoch.
pub open spec fn written_epoch(value: Seq<char>) -> Option<Moment> {
    let (whole, fraction) = match split_once(value, "."@) {
        Some(parts) => parts,
        None => (value, Seq::<char>::empty()),
    };
    match parsed_signed(whole) {
        Some(seconds) => if all_digits(fraction) {
            moment_at(seconds as i64, fraction_nanos(fraction) as u32)
        } else {
            None
        },
        None => None,
    }
}

/// The point in time of an access log: RFC 3339, the usual format of access logs, or seconds since
/// the epoch.
pub open spec fn logged_at(value: Seq<char>) -> Option<int> {
    match rfc3339_nanos(value) {
        Some(nanos) => Some(nanos),
        None => match formatted_nanos(value, "%d/%b/%Y:%H:%M:%S %z"@) {
            Some(nanos) => Some(nanos),
            None => match written_epoch(value) {
                Some(at) => Some(at.nanos as int),
                None => None,
            },
        },
    }
}

proof fn nine_digits(s: Seq<char>, i: int)
    requires
        0 <= i <= s.len() <= 9,
        all_digits(s),
    ensures
        digits_value(s.take(i)) < power_of_ten(i as nat),
        power_of_ten(i as nat) * power_of_ten((9 - i) as nat) == 1_000_000_000,
    decreases i,
{
    if i == 0 {
        assert(s.take(0) == Seq::<char>::empty());
        assert(power_of_ten(9) == 1_000_000_000) by {
            reveal_with_fuel(power_of_ten, 11);
        }
        let a = power_of_ten(i as nat);
        let b = power_of_ten((9 - i) as nat);
        assert(a * b == 1_000_000_000) by (nonlinear_arith)
            requires
                a == 1,
                b == 1_000_000_000,
        ;
    } else {
        nine_digits(s, i - 1);
        let a = power_of_ten((i - 1) as nat);
        let b = power_of_ten((9 - i) as nat);
        assert(power_of_ten((9 - (i - 1)) as nat) == 10 * b);
        assert(power_of_ten(i as nat) == 10 * a);
        assert(((10 * a) as nat) * b == a * ((10 * b) as nat)) by (nonlinear_arith);
        assert(s.take(i).drop_last() == s.take(i - 1));
        assert(is_digit(s[i - 1]));
    }
}

fn fraction(digits: &[char]) -> (r: u32)
    requires
        all_digits(digits@),
    ensures
        r == fraction_nanos(digits@),
        r < 1_000_000_000,
{
    let n: usize = if digits.len() > 9 {
        9
    } else {
        digits.len()
    };
    let kept = slice_of(digits, 0, n);
    let ghost k = kept@;
    proof {
        assert(k == digits@.take(n as int));
        assert(digits@.len() <= 9 ==> k == digits@);
        assert forall|i: int| 0 <= i < k.len() implies is_digit(#[trigger] k[i]) by {
            assert(is_digit(digits@[i]));
        }
        nine_digits(k, n as int);
        assert(k.take(n as int) == k);
    }
    let mut value: u64 = if n == 0 {
        0
    } else {
        if kept[0] == '+' {
            assert(is_digit(k[0]));
        }
        proof {
            reveal_with_fuel(power_of_ten, 10);
        }
        match number_of(kept.as_slice(), u64::MAX) {
            Some(v) => v,
            None => {
                assert(false);
                0
            },
        }
    };
    let mut i: usize = n;
    let ghost start = digits_value(k);
    proof {
        assert(start * power_of_ten((9 - n) as nat) <= 1_000_000_000) by (nonlinear_arith)
            requires
                start < power_of_ten(n as nat),
                power_of_ten(n as nat) * power_of_ten((9 - n) as nat) == 1_000_000_000,
        ;
        assert(start * power_of_ten((9 - n) as nat) < 1_000_000_000) by (nonlinear_arith)
            requires
                start < power_of_ten(n as nat),
                power_of_ten(n as nat) * power_of_ten((9 - n) as nat) == 1_000_000_000,
        ;
        assert(start == value);
    }
    while i < 9
        invariant
            n <= i <= 9,
            value * power_of_ten((9 - i) as nat) == start * power_of_ten((9 - n) as nat),
            start * power_of_ten((9 - n) as nat) < 1_000_000_000,
        decreases 9 - i,
    {
        proof {
            let rest = power_of_ten((9 - i - 1) as nat);
            assert(power_of_ten((9 - i) as nat) == 10 * rest);
            assert(value * (10 * rest) == (value * 10) * rest) by (nonlinear_arith);
            power_is_positive((9 - i - 1) as nat);
            assert(value * 10 < 1_000_000_000) by (nonlinear_arith)
                requires
                    (value * 10) * rest < 1_000_000_000,
                    rest >= 1,
            ;
        }
        value = value * 10;
        i += 1;
    }
    proof {
        let one = power_of_ten((9 - i) as nat);
        assert(one == 1);
        assert(value * one == value) by (nonlinear_arith)
            requires
                one == 1,
        ;
    }
    value as u32
}

proof fn power_is_positive(k: nat)
    ensures
        power_of_ten(k) >= 1,
    decreases k,
{
    if k > 0 {
        power_is_positive((k - 1) as nat);
    }
}

/// Reads the point in time of an access log line.
pub fn parse_timestamp(value: &str) -> (r: Option<Moment>)
    ensures
        crate::clock::nanos_option(r) == logged_at(value@),
        r matches Some(at) ==> EARLIEST <= at.nanos <= LATEST,
{
    match parse_rfc3339(value) {
        Some(at) => {
            return Some(at);
        },
        None => {},
    }
    match parse_formatted(value, "%d/%b/%Y:%H:%M:%S %z") {
        Some(at) => {
            return Some(at);
        },
        None => {},
    }
    let chars = chars_of(value);
    let point = chars_of(".");
    let (whole, rest) = match halves(chars.as_slice(), point.as_slice()) {
        Some(parts) => parts,
        None => (chars, Vec::new()),
    };
    assert(rest@.len() == 0 ==> rest@ == Seq::<char>::empty());
    let seconds: i64 = match signed_number(whole.as_slice()) {
        Some(n) => n,
        None => {
            return None;
        },
    };
    if !digits_only(rest.as_slice()) {
        return None;
    }
    let nanos: u32 = fraction(rest.as_slice());
    from_timestamp(seconds, nanos)
}

/// Why an access log gives no transitions.
#[derive(Debug)]
pub enum LogError {
    /// The log is not a complete Zstandard stream.
    Corrupt(String),
    /// The log is not UTF-8.
    NotText,
    /// None of the lines, of which the log has this many, had the fields for method and path.
    NoFields(usize),
}

impl LogError {
    /// What is said of the log at a path.
    pub open spec fn text(self, path: Seq<char>, options: TransitionOptions<'_>) -> Seq<char> {
        match self {
            LogError::Corrupt(error) => error@,
            LogError::NotText => "stream did not contain valid UTF-8"@,
            LogError::NoFields(count) => path + ": none of "@ + decimal(count as nat)
                + " access-log lines had the `"@ + options.method_field@ + "` and `"@
                + options.uri_field@ + "` fields"@,
        }
    }

    pub fn message(&self, path: &str, options: &TransitionOptions<'_>) -> (r: String)
        ensures
            r@ == self.text(path@, *options),
    {
        match self {
            LogError::Corrupt(error) => error.clone(),
            LogError::NotText => "stream did not contain valid UTF-8".to_owned(),
            LogError::NoFields(count) => {
                let mut out = chars_of(path);
                append_str(&mut out, ": none of ");
                append(&mut out, decimal_of(*count as u64).as_slice());
                append_str(&mut out, " access-log lines had the `");
                append_str(&mut out, options.method_field);
                append_str(&mut out, "` and `");
                append_str(&mut out, options.uri_field);
                append_str(&mut out, "` fields");
                string_of(out.as_slice())
            },
        }
    }
}

pub open spec fn names_session(value: Option<Seq<char>>) -> bool {
    value matches Some(s) && s.len() > 0 && s != "-"@
}

/// The line tells the method and the path of a request.
pub open spec fn tells_request(line: Seq<char>, options: TransitionOptions) -> bool {
    ltsv_field(line, options.method_field@) is Some && ltsv_field(line, options.uri_field@) is Some
}

/// The request of a line, where the line tells its session and its time too.
pub open spec fn event_of(rules: Seq<Rule>, line: Seq<char>, options: TransitionOptions) -> Option<
    EventView,
> {
    let session = ltsv_field(line, options.session_field@);
    if !tells_request(line, options) || !names_session(session) {
        None
    } else {
        match ltsv_field(line, options.time_field@) {
            Some(time) => match logged_at(time) {
                Some(at) => Some(
                    EventView {
                        session: session->0,
                        at,
                        route: ltsv_field(line, options.method_field@)->0 + " "@ + canonical(
                            rules,
                            before_char(ltsv_field(line, options.uri_field@)->0, '?'),
                        ),
                    },
                ),
                None => None,
            },
            None => None,
        }
    }
}

/// The requests that the lines tell, in their order.
pub open spec fn events_in(
    rules: Seq<Rule>,
    log: Seq<Seq<char>>,
    options: TransitionOptions,
) -> Seq<EventView>
    decreases log.len(),
{
    if log.len() == 0 {
        Seq::empty()
    } else {
        let rest = events_in(rules, log.drop_last(), options);
        match event_of(rules, log.last(), options) {
            Some(event) => rest.push(event),
            None => rest,
        }
    }
}

pub open spec fn is_written() -> spec_fn(Seq<char>) -> bool {
    |line: Seq<char>| !is_blank(line)
}

/// Lines were written, and none of them tells a request.
pub open spec fn fields_missing(log: Seq<Seq<char>>, options: TransitionOptions) -> bool {
    let written = log.filter(is_written());
    written.len() > 0 && forall|i: int|
        0 <= i < written.len() ==> !tells_request(#[trigger] written[i], options)
}

/// What a log in plain text gives.
pub open spec fn log_events(
    rules: Seq<Rule>,
    raw: Seq<char>,
    options: TransitionOptions,
) -> Option<Seq<EventView>> {
    if fields_missing(lines(raw), options) {
        None
    } else {
        Some(events_in(rules, lines(raw), options))
    }
}

fn event_from(rules: &RouteNormalizer, line: &Vec<char>, options: &TransitionOptions<'_>) -> (r: (
    bool,
    Option<SessionEvent>,
))
    ensures
        r.0 == tells_request(line@, *options),
        match r.1 {
            Some(event) => event_of(rules@, line@, *options) == Some(event@) && EARLIEST
                <= event.at.nanos <= LATEST,
            None => event_of(rules@, line@, *options) is None,
        },
{
    let fields = split_at_each(line.as_slice(), '\t');
    let method = match ltsv_value(&fields, options.method_field) {
        Some(value) => value,
        None => {
            return (false, None);
        },
    };
    let uri = match ltsv_value(&fields, options.uri_field) {
        Some(value) => value,
        None => {
            return (false, None);
        },
    };
    let session = match ltsv_value(&fields, options.session_field) {
        Some(value) => value,
        None => {
            return (true, None);
        },
    };
    let dash = chars_of("-");
    if session.len() == 0 || crate::text::same_chars(session.as_slice(), dash.as_slice()) {
        return (true, None);
    }
    let time = match ltsv_value(&fields, options.time_field) {
        Some(value) => value,
        None => {
            return (true, None);
        },
    };
    let time = string_of(time.as_slice());
    let at = match parse_timestamp(time.as_str()) {
        Some(at) => at,
        None => {
            return (true, None);
        },
    };
    let path = string_of(cut_before(uri.as_slice(), '?').as_slice());
    let route = rules.normalize(path.as_str());
    let mut text = method;
    append_str(&mut text, " ");
    append_str(&mut text, route.as_str());
    (
        true,
        Some(
            SessionEvent {
                session: string_of(session.as_slice()),
                at,
                route: string_of(text.as_slice()),
            },
        ),
    )
}

/// Blank lines tell no request.
proof fn blank_lines_are_silent(line: Seq<char>)
    requires
        is_blank(line),
    ensures
        forall|key: Seq<char>| #[trigger] ltsv_field(line, key) is None,
{
    blank_has_no_colon(line);
    assert forall|key: Seq<char>| #[trigger] ltsv_field(line, key) is None by {
        pieces_have_no_colon(line, key);
    }
}

proof fn blank_has_no_colon(s: Seq<char>)
    requires
        is_blank(s),
    ensures
        forall|i: int| 0 <= i < s.len() ==> #[trigger] s[i] != ':',
{
    crate::text::blank_is_space(s);
}

proof fn pieces_have_no_colon(s: Seq<char>, key: Seq<char>)
    requires
        forall|i: int| 0 <= i < s.len() ==> #[trigger] s[i] != ':',
    ensures
        forall|p: int, i: int|
            0 <= p < split(s, '\t').len() && 0 <= i < split(s, '\t')[p].len() ==> #[trigger] split(
                s,
                '\t',
            )[p][i] != ':',
        field_in(split(s, '\t'), key) is None,
    decreases s.len(),
{
    let all = split(s, '\t');
    if s.len() == 0 {
        assert(all == seq![Seq::<char>::empty()]);
    } else {
        pieces_have_no_colon(s.drop_last(), key);
        crate::text::split_is_not_empty(s.drop_last(), '\t');
        let rest = split(s.drop_last(), '\t');
        assert forall|p: int, i: int| 0 <= p < all.len() && 0 <= i < all[p].len() implies
            #[trigger] all[p][i] != ':' by {
            if s.last() == '\t' {
                if p < rest.len() {
                    assert(rest[p][i] != ':');
                }
            } else if p == rest.len() - 1 {
                if i < rest[p].len() {
                    assert(rest[p][i] != ':');
                } else {
                    assert(s[s.len() - 1] != ':');
                }
            } else {
                assert(rest[p][i] != ':');
            }
        }
    }
    no_colon_no_field(all, key);
}

proof fn no_colon_no_field(fields: Seq<Seq<char>>, key: Seq<char>)
    requires
        forall|p: int, i: int|
            0 <= p < fields.len() && 0 <= i < fields[p].len() ==> #[trigger] fields[p][i] != ':',
    ensures
        field_in(fields, key) is None,
    decreases fields.len(),
{
    if fields.len() > 0 {
        let last = fields.last();
        find_is_first(last, ":"@, 0);
        reveal_strlit(":");
        if split_once(last, ":"@) is Some {
            let at = crate::text::find(last, ":"@)->0;
            assert(crate::text::stands_at(last, ":"@, at));
            assert(last.skip(at).take(1)[0] == ':');
            assert(fields[fields.len() - 1][at] != ':');
        }
        assert forall|p: int, i: int|
            0 <= p < fields.drop_last().len() && 0 <= i < fields.drop_last()[p].len() implies
            #[trigger] fields.drop_last()[p][i] != ':' by {
            assert(fields[p][i] != ':');
        }
        no_colon_no_field(fields.drop_last(), key);
    }
}

/// Reads the requests of a log in plain text.
pub fn read_log(rules: &RouteNormalizer, raw: &str, options: &TransitionOptions<'_>) -> (r: Result<
    Vec<SessionEvent>,
    LogError,
>)
    ensures
        match r {
            Ok(events) => log_events(rules@, raw@, *options) == Some(value_views(events@))
                && in_calendar(events@),
            Err(LogError::NoFields(count)) => log_events(rules@, raw@, *options) is None && count
                == lines(raw@).filter(is_written()).len(),
            Err(_) => false,
        },
{
    let log = lines_of(chars_of(raw).as_slice());
    let ghost all = lines(raw@);
    let mut events: Vec<SessionEvent> = Vec::new();
    let mut count: usize = 0;
    let mut parsed = false;
    let mut i: usize = 0;
    proof {
        reveal(Seq::filter);
        assert(all.take(0) == Seq::<Seq<char>>::empty());
        assert(value_views(events@) == events_in(rules@, all.take(0), *options));
    }
    while i < log.len()
        invariant
            i <= log@.len(),
            all == views(log@),
            count == all.take(i as int).filter(is_written()).len(),
            count <= i,
            parsed == exists|j: int|
                0 <= j < all.take(i as int).filter(is_written()).len() && tells_request(
                    #[trigger] all.take(i as int).filter(is_written())[j],
                    *options,
                ),
            value_views(events@) == events_in(rules@, all.take(i as int), *options),
            in_calendar(events@),
        decreases log.len() - i,
    {
        let ghost head = all.take(i as int);
        let ghost next = all.take(i + 1);
        proof {
            assert(next.drop_last() == head);
            assert(next.last() == log@[i as int]@);
            reveal(Seq::filter);
        }
        let line = &log[i];
        if trimmed(line.as_slice()).len() == 0 {
            proof {
                blank_lines_are_silent(line@);
                assert(ltsv_field(line@, options.method_field@) is None);
                assert(event_of(rules@, line@, *options) is None);
            }
        } else {
            let ghost kept = head.filter(is_written());
            assert(next.filter(is_written()) == kept.push(line@));
            count += 1;
            let (tells, event) = event_from(rules, line, options);
            let ghost before = parsed;
            if tells {
                parsed = true;
            }
            proof {
                let more = next.filter(is_written());
                if tells {
                    assert(tells_request(more[kept.len() as int], *options));
                }
                if before {
                    let j = choose|j: int|
                        0 <= j < kept.len() && tells_request(#[trigger] kept[j], *options);
                    assert(more[j] == kept[j]);
                }
                if exists|j: int|
                    0 <= j < more.len() && tells_request(#[trigger] more[j], *options) {
                    let j = choose|j: int|
                        0 <= j < more.len() && tells_request(#[trigger] more[j], *options);
                    if j < kept.len() {
                        assert(tells_request(kept[j], *options));
                    }
                }
            }
            match event {
                Some(e) => {
                    let ghost was = events@;
                    events.push(e);
                    assert(value_views(events@) == value_views(was).push(e@));
                },
                None => {},
            }
        }
        i += 1;
    }
    assert(all.take(i as int) == all);
    if count > 0 && !parsed {
        return Err(LogError::NoFields(count));
    }
    Ok(events)
}

/// Every event lies in the calendar.
pub open spec fn in_calendar(events: Seq<SessionEvent>) -> bool {
    forall|i: int|
        0 <= i < events.len() ==> EARLIEST <= (#[trigger] events[i]).at.nanos <= LATEST
}

/// Reads the requests of a compressed log.
pub fn read_compressed(
    rules: &RouteNormalizer,
    bytes: &[u8],
    options: &TransitionOptions<'_>,
) -> (r: Result<Vec<SessionEvent>, LogError>)
    ensures
        match r {
            Ok(events) => decompressed(bytes@) is Ok && vstd::utf8::valid_utf8(
                sound_output(bytes@),
            ) && log_events(
                rules@,
                vstd::utf8::decode_utf8(sound_output(bytes@)),
                *options,
            ) == Some(value_views(events@)) && in_calendar(events@),
            Err(LogError::NotText) => !vstd::utf8::valid_utf8(sound_output(bytes@)),
            Err(LogError::Corrupt(error)) => vstd::utf8::valid_utf8(sound_output(bytes@))
                && decompressed(bytes@) == Err::<Seq<u8>, _>(error@),
            Err(LogError::NoFields(count)) => decompressed(bytes@) is Ok
                && vstd::utf8::valid_utf8(sound_output(bytes@)) && log_events(
                rules@,
                vstd::utf8::decode_utf8(sound_output(bytes@)),
                *options,
            ) is None && count == lines(vstd::utf8::decode_utf8(sound_output(bytes@))).filter(
                is_written(),
            ).len(),
        },
{
    let text = match text_from_bytes(decompress_lines(bytes).as_slice()) {
        Some(text) => text,
        None => {
            return Err(LogError::NotText);
        },
    };
    match decompress(bytes) {
        Err(error) => Err(LogError::Corrupt(error)),
        Ok(_) => read_log(rules, text.as_str(), options),
    }
}

/// One move of a session from a route to the next, with the milliseconds between the requests.
#[derive(Debug)]
pub struct Step {
    pub from: String,
    pub to: String,
    pub ms: Number,
}

#[verifier::ext_equal]
pub struct StepView {
    pub from: Seq<char>,
    pub to: Seq<char>,
    pub ms: Number,
}

impl View for Step {
    type V = StepView;

    open spec fn view(&self) -> StepView {
        StepView { from: self.from@, to: self.to@, ms: self.ms }
    }
}

/// The microseconds from `a` to `b`, rounded towards zero: zero where they do not fit in
/// sixty-four bits.
pub open spec fn elapsed_micros(a: int, b: int) -> i64 {
    let micros = if b >= a {
        (b - a) / 1000
    } else {
        -((a - b) / 1000)
    };
    if i64::MIN <= micros <= i64::MAX {
        micros as i64
    } else {
        0
    }
}

/// The milliseconds from `a` to `b`.
pub open spec fn elapsed_ms(f: spec_fn(Op) -> Number, a: int, b: int) -> Number {
    f(Op::Divide(f(Op::Integer(elapsed_micros(a, b))), f(Op::Integer(1000))))
}

pub fn elapsed(a: Moment, b: Moment) -> (r: i64)
    requires
        EARLIEST <= a.nanos <= LATEST,
        EARLIEST <= b.nanos <= LATEST,
    ensures
        r == elapsed_micros(a.nanos as int, b.nanos as int),
{
    let micros: i128 = if b.nanos >= a.nanos {
        (b.nanos - a.nanos) / 1000
    } else {
        -((a.nanos - b.nanos) / 1000)
    };
    if micros < i64::MIN as i128 || micros > i64::MAX as i128 {
        0
    } else {
        micros as i64
    }
}

pub open spec fn session_of() -> spec_fn(EventView) -> Seq<char> {
    |e: EventView| e.session
}

pub open spec fn time_of() -> spec_fn(EventView) -> int {
    |e: EventView| e.at
}

pub open spec fn step_of(f: spec_fn(Op) -> Number, a: EventView, b: EventView) -> StepView {
    StepView { from: a.route, to: b.route, ms: elapsed_ms(f, a.at, b.at) }
}

/// The moves between the requests of one session, which are in the order of time.
pub open spec fn steps_in(f: spec_fn(Op) -> Number, sorted: Seq<EventView>) -> Seq<StepView>
    decreases sorted.len(),
{
    if sorted.len() < 2 {
        Seq::empty()
    } else {
        steps_in(f, sorted.drop_last()).push(
            step_of(f, sorted[sorted.len() - 2], sorted.last()),
        )
    }
}

/// The moves of one session.
pub open spec fn session_steps(
    f: spec_fn(Op) -> Number,
    events: Seq<EventView>,
    session: Seq<char>,
) -> Seq<StepView> {
    steps_in(
        f,
        stable_sorted::<EventView, Moment>(with_key(events, session_of(), session), time_of()),
    )
}

/// The moves of all sessions, one session after the other.
pub open spec fn all_steps(f: spec_fn(Op) -> Number, events: Seq<EventView>) -> Seq<StepView> {
    chain(
        distinct_sorted::<String>(events.map_values(session_of())).map_values(
            |s: Seq<char>| session_steps(f, events, s),
        ),
    )
}

pub open spec fn by_routes() -> spec_fn(StepView) -> (Seq<char>, Seq<char>) {
    |s: StepView| (s.from, s.to)
}

pub open spec fn step_ms() -> spec_fn(StepView) -> Number {
    |s: StepView| s.ms
}

pub open spec fn own_place() -> spec_fn(Number) -> int {
    |n: Number| n.place()
}

/// The number one half.
pub const MEDIAN: u64 = 0x3fe0_0000_0000_0000;

/// The number ninety-five hundredths.
pub const NEARLY_ALL: u64 = 0x3fee_6666_6666_6666;

/// How often, and how fast, sessions move from one route to another.
pub open spec fn edge_of(
    f: spec_fn(Op) -> Number,
    k: (Seq<char>, Seq<char>),
    steps: Seq<StepView>,
) -> TransitionView {
    let sorted = stable_sorted::<Number, Number>(steps.map_values(step_ms()), own_place());
    TransitionView {
        from_route: k.0,
        to_route: k.1,
        count: steps.len() as i64,
        p50_ms: percentile_of(f, sorted, Number { bits: MEDIAN }),
        p95_ms: percentile_of(f, sorted, Number { bits: NEARLY_ALL }),
    }
}

/// The moves between each two routes, in the order of the routes.
pub open spec fn edges_of(f: spec_fn(Op) -> Number, events: Seq<EventView>) -> Seq<TransitionView> {
    let steps = all_steps(f, events);
    distinct_sorted::<(String, String)>(steps.map_values(by_routes())).map_values(
        |k: (Seq<char>, Seq<char>)| edge_of(f, k, with_key(steps, by_routes(), k)),
    )
}

/// Adds the moves of one session.
fn add_steps<F: Fn(Op) -> Number>(out: &mut Vec<Step>, sorted: &Vec<&SessionEvent>, compute: &F)
    requires
        is_arithmetic(*compute),
        forall|i: int|
            0 <= i < sorted@.len() ==> EARLIEST <= (#[trigger] sorted@[i]).at.nanos <= LATEST,
    ensures
        value_views(final(out)@) == value_views(old(out)@) + steps_in(
            arithmetic(*compute),
            ref_views(sorted@),
        ),
{
    let ghost f = arithmetic(*compute);
    let ghost all = ref_views(sorted@);
    let ghost before = value_views(out@);
    let mut i: usize = 1;
    proof {
        if all.len() > 0 {
            assert(before + steps_in(f, all.take(1)) == before);
        }
    }
    while i < sorted.len()
        invariant
            is_arithmetic(*compute),
            f == arithmetic(*compute),
            1 <= i,
            i <= sorted@.len() || i == 1,
            all == ref_views(sorted@),
            forall|j: int|
                0 <= j < sorted@.len() ==> EARLIEST <= (#[trigger] sorted@[j]).at.nanos <= LATEST,
            sorted@.len() > 0 ==> value_views(out@) == before + steps_in(f, all.take(i as int)),
            sorted@.len() == 0 ==> value_views(out@) == before,
        decreases sorted.len() - i,
    {
        let a = sorted[i - 1];
        let b = sorted[i];
        let micros = apply(compute, Op::Integer(elapsed(a.at, b.at)));
        let thousand = apply(compute, Op::Integer(1000));
        let step = Step {
            from: a.route.clone(),
            to: b.route.clone(),
            ms: apply(compute, Op::Divide(micros, thousand)),
        };
        let ghost was = out@;
        out.push(step);
        proof {
            let next = all.take(i + 1);
            assert(next.drop_last() == all.take(i as int));
            assert(next[next.len() - 2] == a@);
            assert(next.last() == b@);
            assert(value_views(out@) == value_views(was).push(step@));
            assert(before + steps_in(f, next) == (before + steps_in(f, all.take(i as int))).push(
                step@,
            ));
        }
        i += 1;
    }
    proof {
        if sorted@.len() > 0 {
            assert(all.take(i as int) == all);
        } else {
            assert(before + steps_in(f, all) == before);
        }
    }
}

/// The moves of all sessions.
fn session_moves<F: Fn(Op) -> Number>(events: &Vec<SessionEvent>, compute: &F) -> (out: Vec<Step>)
    requires
        is_arithmetic(*compute),
        in_calendar(events@),
    ensures
        value_views(out@) == all_steps(arithmetic(*compute), value_views(events@)),
{
    let ghost f = arithmetic(*compute);
    let ghost all = value_views(events@);
    let mut keys: Vec<String> = Vec::new();
    let mut i: usize = 0;
    while i < events.len()
        invariant
            i <= events@.len(),
            all == value_views(events@),
            models(keys@) == all.take(i as int).map_values(session_of()),
        decreases events.len() - i,
    {
        let ghost was = keys@;
        keys.push(events[i].session.clone());
        assert(models(keys@) == models(was).push(all[i as int].session));
        assert(all.take(i + 1).map_values(session_of()) == all.take(i as int).map_values(
            session_of(),
        ).push(all[i as int].session));
        i += 1;
    }
    assert(all.take(i as int) == all);
    let groups = grouped(events.as_slice(), &keys, Ghost(session_of()));
    let ghost names = distinct_sorted::<String>(all.map_values(session_of()));
    let ghost each = |s: Seq<char>| session_steps(f, all, s);
    let mut out: Vec<Step> = Vec::new();
    let mut g: usize = 0;
    while g < groups.len()
        invariant
            is_arithmetic(*compute),
            f == arithmetic(*compute),
            in_calendar(events@),
            all == value_views(events@),
            g <= groups@.len(),
            names == distinct_sorted::<String>(all.map_values(session_of())),
            each == (|s: Seq<char>| session_steps(f, all, s)),
            groups@.len() == names.len(),
            forall|h: int|
                0 <= h < groups@.len() ==> ref_views((#[trigger] groups@[h])@) == with_key(
                    all,
                    session_of(),
                    names[h],
                ) && groups@[h]@.len() > 0,
            value_views(out@) == chain(names.take(g as int).map_values(each)),
        decreases groups.len() - g,
    {
        let members = &groups[g];
        let ghost view = |e: &SessionEvent| (*e)@;
        let ghost through = |e: &SessionEvent| time_of()(view(e));
        let ghost part = ref_views(members@);
        let mut times: Vec<Moment> = Vec::new();
        let mut list: Vec<&SessionEvent> = Vec::new();
        let mut j: usize = 0;
        while j < members.len()
            invariant
                j <= members@.len(),
                list@ == members@.take(j as int),
                view == (|e: &SessionEvent| (*e)@),
                through == (|e: &SessionEvent| time_of()(view(e))),
                models(times@) == list@.map_values(through),
            decreases members.len() - j,
        {
            let ghost was = times@;
            let ghost was_list = list@;
            times.push(members[j].at);
            list.push(members[j]);
            assert(models(times@) == models(was).push(through(members@[j as int])));
            assert(list@.map_values(through) == was_list.map_values(through).push(
                through(members@[j as int]),
            ));
            assert(members@.take(j + 1) == members@.take(j as int).push(members@[j as int]));
            j += 1;
        }
        assert(members@.take(j as int) == members@);
        let sorted = sort_by_keys(list, &times, Ghost(through));
        proof {
            stable_sorted_through::<&SessionEvent, EventView, Moment>(members@, view, time_of());
            assert(members@.map_values(view) == part);
            assert(ref_views(sorted@) == stable_sorted::<EventView, Moment>(part, time_of()));
            assert forall|x: int| 0 <= x < sorted@.len() implies EARLIEST <= (
            #[trigger] sorted@[x]).at.nanos <= LATEST by {
                sorted_members_stay::<EventView, Moment>(part, time_of());
                let v = ref_views(sorted@)[x];
                assert(v == sorted@[x]@);
                assert(ref_views(sorted@).contains(v));
                assert(part.contains(v));
                let y = choose|y: int| 0 <= y < part.len() && part[y] == v;
                crate::join::with_key_holds(all, session_of(), names[g as int], y);
                let z = choose|z: int| 0 <= z < all.len() && all[z] == v;
                assert(all[z] == events@[z]@);
            }
        }
        let ghost was = value_views(out@);
        add_steps(&mut out, &sorted, compute);
        proof {
            let next = names.take(g + 1).map_values(each);
            assert(next.drop_last() == names.take(g as int).map_values(each));
            assert(next.last() == each(names[g as int]));
        }
        g += 1;
    }
    assert(names.take(g as int) == names);
    out
}

/// Sorting keeps the items.
pub proof fn sorted_members_stay<T, K: Key>(items: Seq<T>, key: spec_fn(T) -> K::Model)
    ensures
        forall|x: T| #[trigger] stable_sorted::<T, K>(items, key).contains(x) ==> items.contains(x),
    decreases items.len(),
{
    if items.len() > 0 {
        let rest = stable_sorted::<T, K>(items.drop_last(), key);
        sorted_members_stay::<T, K>(items.drop_last(), key);
        inserted_members_stay::<T, K>(rest, key, items.last());
        assert forall|x: T| #[trigger] stable_sorted::<T, K>(items, key).contains(x) implies
            items.contains(x) by {
            if x == items.last() {
                assert(items[items.len() - 1] == x);
            } else {
                assert(rest.contains(x));
                let i = choose|i: int|
                    0 <= i < items.drop_last().len() && items.drop_last()[i] == x;
                assert(items[i] == x);
            }
        }
    }
}

proof fn inserted_members_stay<T, K: Key>(sorted: Seq<T>, key: spec_fn(T) -> K::Model, item: T)
    ensures
        forall|x: T| #[trigger]
            crate::order::insert_item::<T, K>(sorted, key, item).contains(x) ==> x == item
                || sorted.contains(x),
    decreases sorted.len(),
{
    let out = crate::order::insert_item::<T, K>(sorted, key, item);
    if sorted.len() > 0 && K::precedes(key(item), key(sorted.last())) {
        let inner = crate::order::insert_item::<T, K>(sorted.drop_last(), key, item);
        inserted_members_stay::<T, K>(sorted.drop_last(), key, item);
        assert forall|x: T| #[trigger] out.contains(x) implies x == item || sorted.contains(x) by {
            let i = choose|i: int| 0 <= i < out.len() && out[i] == x;
            if i < inner.len() {
                assert(inner.contains(x));
                if x != item {
                    let j = choose|j: int|
                        0 <= j < sorted.drop_last().len() && sorted.drop_last()[j] == x;
                    assert(sorted[j] == x);
                }
            } else {
                assert(sorted[sorted.len() - 1] == x);
            }
        }
    } else {
        assert forall|x: T| #[trigger] out.contains(x) implies x == item || sorted.contains(x) by {
            let i = choose|i: int| 0 <= i < out.len() && out[i] == x;
            if i < sorted.len() {
                assert(sorted[i] == x);
            }
        }
    }
}

/// Sorts numbers in their total order.
pub fn sorted_numbers(values: Vec<Number>) -> (r: Vec<Number>)
    ensures
        r@ == stable_sorted::<Number, Number>(values@, own_place()),
{
    let mut keys: Vec<Number> = Vec::new();
    let mut i: usize = 0;
    while i < values.len()
        invariant
            i <= values@.len(),
            models(keys@) == values@.take(i as int).map_values(own_place()),
        decreases values.len() - i,
    {
        let ghost was = keys@;
        keys.push(values[i]);
        assert(models(keys@) == models(was).push(values@[i as int].place()));
        assert(values@.take(i + 1).map_values(own_place()) == values@.take(i as int).map_values(
            own_place(),
        ).push(values@[i as int].place()));
        i += 1;
    }
    assert(values@.take(i as int) == values@);
    sort_by_keys(values, &keys, Ghost(own_place()))
}

/// How often, and how fast, sessions move between each two routes.
pub fn edges<F: Fn(Op) -> Number>(events: &Vec<SessionEvent>, compute: &F) -> (r: Vec<Transition>)
    requires
        is_arithmetic(*compute),
        in_calendar(events@),
    ensures
        value_views(r@) == edges_of(arithmetic(*compute), value_views(events@)),
{
    let ghost f = arithmetic(*compute);
    let moves = session_moves(events, compute);
    let ghost steps = value_views(moves@);
    let mut keys: Vec<(String, String)> = Vec::new();
    let mut i: usize = 0;
    while i < moves.len()
        invariant
            i <= moves@.len(),
            steps == value_views(moves@),
            models(keys@) == steps.take(i as int).map_values(by_routes()),
        decreases moves.len() - i,
    {
        let ghost was = keys@;
        keys.push((moves[i].from.clone(), moves[i].to.clone()));
        assert(models(keys@) == models(was).push(by_routes()(steps[i as int])));
        assert(steps.take(i + 1).map_values(by_routes()) == steps.take(i as int).map_values(
            by_routes(),
        ).push(by_routes()(steps[i as int])));
        i += 1;
    }
    assert(steps.take(i as int) == steps);
    let groups = grouped(moves.as_slice(), &keys, Ghost(by_routes()));
    let ghost names = distinct_sorted::<(String, String)>(steps.map_values(by_routes()));
    let ghost each = |k: (Seq<char>, Seq<char>)| edge_of(f, k, with_key(steps, by_routes(), k));
    let mut out: Vec<Transition> = Vec::new();
    let mut g: usize = 0;
    while g < groups.len()
        invariant
            is_arithmetic(*compute),
            f == arithmetic(*compute),
            g <= groups@.len(),
            names == distinct_sorted::<(String, String)>(steps.map_values(by_routes())),
            each == (|k: (Seq<char>, Seq<char>)|
                edge_of(f, k, with_key(steps, by_routes(), k))),
            groups@.len() == names.len(),
            forall|h: int|
                0 <= h < groups@.len() ==> ref_views((#[trigger] groups@[h])@) == with_key(
                    steps,
                    by_routes(),
                    names[h],
                ) && groups@[h]@.len() > 0,
            value_views(out@) == names.take(g as int).map_values(each),
        decreases groups.len() - g,
    {
        let members = &groups[g];
        let ghost part = ref_views(members@);
        proof {
            assert(part[0] == members@[0]@);
            crate::join::with_key_holds(steps, by_routes(), names[g as int], 0);
        }
        let mut durations: Vec<Number> = Vec::new();
        let mut j: usize = 0;
        while j < members.len()
            invariant
                j <= members@.len(),
                part == ref_views(members@),
                durations@ == part.take(j as int).map_values(step_ms()),
            decreases members.len() - j,
        {
            durations.push(members[j].ms);
            assert(part[j as int] == members@[j as int]@);
            assert(part.take(j + 1).map_values(step_ms()) == part.take(j as int).map_values(
                step_ms(),
            ).push(part[j as int].ms));
            j += 1;
        }
        assert(part.take(j as int) == part);
        let sorted = sorted_numbers(durations);
        let edge = Transition {
            from_route: members[0].from.clone(),
            to_route: members[0].to.clone(),
            count: members.len() as i64,
            p50_ms: percentile(sorted.as_slice(), Number { bits: MEDIAN }, compute),
            p95_ms: percentile(sorted.as_slice(), Number { bits: NEARLY_ALL }, compute),
        };
        let ghost was = out@;
        out.push(edge);
        assert(value_views(out@) == value_views(was).push(edge@));
        assert(names.take(g + 1).map_values(each) == names.take(g as int).map_values(each).push(
            each(names[g as int]),
        ));
        g += 1;
    }
    assert(names.take(g as int) == names);
    out
}

/// Every move is counted under its two routes, and every pair of routes that is reported was
/// observed.
pub proof fn every_move_is_counted(f: spec_fn(Op) -> Number, events: Seq<EventView>, i: int)
    requires
        0 <= i < all_steps(f, events).len(),
    ensures
        exists|e: int|
            0 <= e < edges_of(f, events).len() && (#[trigger] edges_of(f, events)[e]).from_route
                == all_steps(f, events)[i].from && edges_of(f, events)[e].to_route == all_steps(
                f,
                events,
            )[i].to,
{
    let steps = all_steps(f, events);
    let keys = steps.map_values(by_routes());
    let names = distinct_sorted::<(String, String)>(keys);
    crate::order::distinct_sorted_holds::<(String, String)>(keys);
    assert(keys[i] == by_routes()(steps[i]));
    assert(keys.contains(keys[i]));
    assert(names.contains(keys[i]));
    let e = choose|e: int| 0 <= e < names.len() && names[e] == keys[i];
    assert(edges_of(f, events)[e].from_route == steps[i].from);
}

/// The name of a log that is read for a prefix.
pub open spec fn is_log(prefix: Seq<char>) -> spec_fn(Seq<char>) -> bool {
    |name: Seq<char>| starts(name, prefix) && ends(name, ".zst"@)
}

pub open spec fn own_text() -> spec_fn(Seq<char>) -> Seq<char> {
    |s: Seq<char>| s
}

/// The logs among the files of a directory, in the order of their names.
pub fn find_logs(names: Vec<String>, prefix: &str) -> (r: Vec<String>)
    ensures
        texts(r@) == stable_sorted::<Seq<char>, String>(
            texts(names@).filter(is_log(prefix@)),
            own_text(),
        ),
{
    let ghost all = names@;
    let head = chars_of(prefix);
    let tail = chars_of(".zst");
    let mut kept: Vec<String> = Vec::new();
    let mut keys: Vec<String> = Vec::new();
    let ghost view = |s: String| s@;
    let ghost through = |s: String| own_text()(view(s));
    proof {
        reveal(Seq::filter);
        assert(texts(all).take(0) == Seq::<Seq<char>>::empty());
        assert(texts(kept@) == texts(all).take(0).filter(is_log(prefix@)));
    }
    for name in it: names
        invariant
            it.seq() == all,
            head@ == prefix@,
            tail@ == ".zst"@,
            view == (|s: String| s@),
            through == (|s: String| own_text()(view(s))),
            texts(kept@) == texts(all).take(it.index() as int).filter(is_log(prefix@)),
            models(keys@) == kept@.map_values(through),
    {
        let chars = chars_of(name.as_str());
        proof {
            reveal(Seq::filter);
            let next = texts(all).take(it.index() + 1);
            assert(next.drop_last() == texts(all).take(it.index() as int));
            assert(next.last() == name@);
        }
        if starts_with(chars.as_slice(), head.as_slice()) && ends_with(
            chars.as_slice(),
            tail.as_slice(),
        ) {
            let ghost was = kept@;
            let ghost was_keys = keys@;
            keys.push(name.clone());
            kept.push(name);
            assert(texts(kept@) == texts(was).push(name@));
            assert(models(keys@) == models(was_keys).push(name@));
            assert(kept@.map_values(through) == was.map_values(through).push(through(name)));
        }
    }
    proof {
        assert(texts(all).take(all.len() as int) == texts(all));
        stable_sorted_through::<String, Seq<char>, String>(kept@, view, own_text());
        assert(kept@.map_values(view) == texts(kept@));
    }
    let sorted = sort_by_keys(kept, &keys, Ghost(through));
    assert(texts(sorted@) == sorted@.map_values(view));
    sorted
}

} // verus!
