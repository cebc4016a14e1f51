//! What is kept of a run in the repository, and the route rules that a run suggests.
use crate::config::push_text;
use crate::join::{grouped, ref_views, value_views, with_key, with_key_holds};
use crate::json::{quote, quoted_text};
use crate::labels::lookup;
use crate::model::{Metric, MetricView};
use crate::order::{distinct_sorted, models, Key};
use crate::paths::{below, path_below};
use crate::pattern::{captures, escape, escaped_text, matched_groups};
use crate::protocol::picked;
use crate::text::{
    append, append_str, chars_of, glue2, glue3, join, joined, same, split, split_at_each, string_of,
    texts, views,
};
use vstd::prelude::*;

verus! {

/// The arguments of `git` that stage a run with all its files, or why it cannot be staged.
pub open spec fn staging(
    id: Seq<char>,
    repo: Seq<char>,
    run_dir: Seq<char>,
    has_manifest: bool,
    has_logs: bool,
) -> Result<Seq<Seq<char>>, Seq<char>> {
    match below(repo, run_dir) {
        None => Err("run "@ + id + " is outside source repository "@ + repo),
        Some(relative) => if !has_manifest {
            Err("run.json not found: "@ + relative)
        } else if !has_logs {
            Err("logs not found: "@ + relative + "/logs"@)
        } else {
            Ok(seq!["-C"@, repo, "add"@, "-f"@, "-A"@, "--"@, relative])
        },
    }
}

/// Stages a run in Git including its raw `logs/`, which projects normally ignore: the complete
/// tree of the run, also where the data directory is ignored.
pub fn pin(id: &str, repo: &str, run_dir: &str, has_manifest: bool, has_logs: bool) -> (r: Result<
    Vec<String>,
    String,
>)
    ensures
        match r {
            Ok(arguments) => staging(id@, repo@, run_dir@, has_manifest, has_logs) == Ok::<
                Seq<Seq<char>>,
                Seq<char>,
            >(texts(arguments@)),
            Err(error) => staging(id@, repo@, run_dir@, has_manifest, has_logs) == Err::<
                Seq<Seq<char>>,
                Seq<char>,
            >(error@),
        },
{
    let relative = match path_below(repo, run_dir) {
        Some(relative) => relative,
        None => {
            let head = glue3("run ", id, " is outside source repository ");
            return Err(glue2(head.as_str(), repo));
        },
    };
    if !has_manifest {
        return Err(glue2("run.json not found: ", relative.as_str()));
    }
    if !has_logs {
        return Err(glue3("logs not found: ", relative.as_str(), "/logs"));
    }
    let mut out: Vec<String> = Vec::new();
    assert(texts(out@) == Seq::<Seq<char>>::empty());
    push_text(&mut out, "-C");
    push_text(&mut out, repo);
    push_text(&mut out, "add");
    push_text(&mut out, "-f");
    push_text(&mut out, "-A");
    push_text(&mut out, "--");
    push_text(&mut out, relative.as_str());
    assert(texts(out@) == seq!["-C"@, repo@, "add"@, "-f"@, "-A"@, "--"@, relative@]);
    Ok(out)
}

/// What a segment of a route is, where it is one of many.
#[derive(Clone, Copy, Debug, PartialEq, Eq, Structural)]
pub enum SegmentKind {
    Number,
    Uuid,
    Digest,
    Token,
}

impl SegmentKind {
    /// The expression that the segments match.
    pub open spec fn matcher(self) -> Seq<char> {
        match self {
            SegmentKind::Number => "^[0-9]+$"@,
            SegmentKind::Uuid => "^[0-9a-fA-F]{8}-[0-9a-fA-F-]{27,}$"@,
            SegmentKind::Digest => "^[0-9a-fA-F]{16,}$"@,
            SegmentKind::Token => "^[A-Za-z0-9_-]{24,}$"@,
        }
    }

    /// How the segment is written in the name of a route.
    pub open spec fn label(self) -> Seq<char> {
        match self {
            SegmentKind::Number => ":id"@,
            SegmentKind::Uuid => ":uuid"@,
            SegmentKind::Digest => ":key"@,
            SegmentKind::Token => ":key"@,
        }
    }

    /// How the segment is written in the expression of a rule.
    pub open spec fn expression(self) -> Seq<char> {
        match self {
            SegmentKind::Number => "[0-9]+"@,
            SegmentKind::Uuid => "[0-9A-Fa-f-]+"@,
            SegmentKind::Digest => "[0-9A-Fa-f]+"@,
            SegmentKind::Token => "[A-Za-z0-9_-]+"@,
        }
    }

    fn matcher_text(self) -> (r: &'static str)
        ensures
            r@ == self.matcher(),
    {
        match self {
            SegmentKind::Number => "^[0-9]+$",
            SegmentKind::Uuid => "^[0-9a-fA-F]{8}-[0-9a-fA-F-]{27,}$",
            SegmentKind::Digest => "^[0-9a-fA-F]{16,}$",
            SegmentKind::Token => "^[A-Za-z0-9_-]{24,}$",
        }
    }

    fn label_text(self) -> (r: &'static str)
        ensures
            r@ == self.label(),
    {
        match self {
            SegmentKind::Number => ":id",
            SegmentKind::Uuid => ":uuid",
            SegmentKind::Digest => ":key",
            SegmentKind::Token => ":key",
        }
    }

    fn expression_text(self) -> (r: &'static str)
        ensures
            r@ == self.expression(),
    {
        match self {
            SegmentKind::Number => "[0-9]+",
            SegmentKind::Uuid => "[0-9A-Fa-f-]+",
            SegmentKind::Digest => "[0-9A-Fa-f]+",
            SegmentKind::Token => "[A-Za-z0-9_-]+",
        }
    }

    pub open spec fn holds(self, segment: Seq<char>) -> bool {
        matched_groups(self.matcher(), segment) is Some
    }
}

/// What a segment is: the first kind that it matches.
pub open spec fn kind_of(segment: Seq<char>) -> Option<SegmentKind> {
    if SegmentKind::Number.holds(segment) {
        Some(SegmentKind::Number)
    } else if SegmentKind::Uuid.holds(segment) {
        Some(SegmentKind::Uuid)
    } else if SegmentKind::Digest.holds(segment) {
        Some(SegmentKind::Digest)
    } else if SegmentKind::Token.holds(segment) {
        Some(SegmentKind::Token)
    } else {
        None
    }
}

fn is_kind(kind: SegmentKind, segment: &str) -> (r: bool)
    ensures
        r == kind.holds(segment@),
{
    captures(kind.matcher_text(), segment).is_some()
}

fn find_kind(segment: &str) -> (r: Option<SegmentKind>)
    ensures
        r == kind_of(segment@),
{
    if is_kind(SegmentKind::Number, segment) {
        Some(SegmentKind::Number)
    } else if is_kind(SegmentKind::Uuid, segment) {
        Some(SegmentKind::Uuid)
    } else if is_kind(SegmentKind::Digest, segment) {
        Some(SegmentKind::Digest)
    } else if is_kind(SegmentKind::Token, segment) {
        Some(SegmentKind::Token)
    } else {
        None
    }
}

/// A segment of a route, what it is, and how it is written in an expression that matches it alone.
#[derive(Clone, Debug)]
pub struct Segment {
    pub text: String,
    pub escaped: String,
    pub kind: Option<SegmentKind>,
}

pub type SegmentView = (Seq<char>, Seq<char>, Option<SegmentKind>);

impl View for Segment {
    type V = SegmentView;

    open spec fn view(&self) -> SegmentView {
        (self.text@, self.escaped@, self.kind)
    }
}

pub open spec fn canonical_part() -> spec_fn(SegmentView) -> Seq<char> {
    |s: SegmentView|
        match s.2 {
            Some(kind) => kind.label(),
            None => s.0,
        }
}

pub open spec fn pattern_part() -> spec_fn(SegmentView) -> Seq<char> {
    |s: SegmentView|
        match s.2 {
            Some(kind) => kind.expression(),
            None => s.1,
        }
}

/// The rule that names a route: the expression and the name. None where the route has no segment
/// that is one of many.
pub open spec fn rule_of(segments: Seq<SegmentView>) -> Option<(Seq<char>, Seq<char>)> {
    if exists|i: int| 0 <= i < segments.len() && (#[trigger] segments[i]).2 is Some {
        Some(
            (
                "^/"@ + join(segments.map_values(pattern_part()), "/"@) + "$"@,
                "/"@ + join(segments.map_values(canonical_part()), "/"@),
            ),
        )
    } else {
        None
    }
}

pub open spec fn pair_texts(r: Option<(String, String)>) -> Option<(Seq<char>, Seq<char>)> {
    match r {
        Some((a, b)) => Some((a@, b@)),
        None => None,
    }
}

/// The rule for a route whose segments are known.
pub fn compose_rule(segments: &Vec<Segment>) -> (r: Option<(String, String)>)
    ensures
        pair_texts(r) == rule_of(value_views(segments@)),
{
    let ghost all = value_views(segments@);
    let ghost patterns = all.map_values(pattern_part());
    let ghost names = all.map_values(canonical_part());
    let mut pattern: Vec<Vec<char>> = Vec::new();
    let mut canonical: Vec<Vec<char>> = Vec::new();
    let mut changed = false;
    let mut i: usize = 0;
    assert(views(pattern@) == patterns.take(0));
    assert(views(canonical@) == names.take(0));
    while i < segments.len()
        invariant
            i <= segments@.len(),
            all == value_views(segments@),
            patterns == all.map_values(pattern_part()),
            names == all.map_values(canonical_part()),
            views(pattern@) == patterns.take(i as int),
            views(canonical@) == names.take(i as int),
            changed == exists|j: int| 0 <= j < i && (#[trigger] all[j]).2 is Some,
        decreases segments.len() - i,
    {
        let ghost was = (pattern@, canonical@);
        assert(all[i as int] == segments@[i as int]@);
        match segments[i].kind {
            Some(kind) => {
                pattern.push(chars_of(kind.expression_text()));
                canonical.push(chars_of(kind.label_text()));
                changed = true;
            },
            None => {
                pattern.push(chars_of(segments[i].escaped.as_str()));
                canonical.push(chars_of(segments[i].text.as_str()));
            },
        }
        assert(views(pattern@) == views(was.0).push(patterns[i as int]));
        assert(views(canonical@) == views(was.1).push(names[i as int]));
        assert(patterns.take(i + 1) == patterns.take(i as int).push(patterns[i as int]));
        assert(names.take(i + 1) == names.take(i as int).push(names[i as int]));
        i += 1;
    }
    assert(patterns.take(i as int) == patterns);
    assert(names.take(i as int) == names);
    if !changed {
        return None;
    }
    let slash = chars_of("/");
    let whole = string_of(joined(pattern.as_slice(), slash.as_slice()).as_slice());
    let name = string_of(joined(canonical.as_slice(), slash.as_slice()).as_slice());
    Some((glue3("^/", whole.as_str(), "$"), glue2("/", name.as_str())))
}

pub open spec fn segment_of() -> spec_fn(Seq<char>) -> SegmentView {
    |text: Seq<char>| (text, escaped_text(text), kind_of(text))
}

/// The segments of a route: what follows each of its slashes.
pub open spec fn segments_of(route: Seq<char>) -> Seq<SegmentView> {
    split(route, '/').skip(1).map_values(segment_of())
}

fn read_segments(route: &str) -> (r: Vec<Segment>)
    ensures
        value_views(r@) == segments_of(route@),
{
    let parts = split_at_each(chars_of(route).as_slice(), '/');
    let ghost rest = split(route@, '/').skip(1);
    let ghost all = rest.map_values(segment_of());
    let mut out: Vec<Segment> = Vec::new();
    let mut i: usize = 1;
    assert(views(parts@).len() == parts@.len());
    assert(value_views(out@) == all.take(0));
    while i < parts.len()
        invariant
            1 <= i <= parts@.len(),
            rest == views(parts@).skip(1),
            all == rest.map_values(segment_of()),
            value_views(out@) == all.take(i - 1),
        decreases parts.len() - i,
    {
        assert(rest[i - 1] == parts@[i as int]@);
        let ghost was = out@;
        let text = string_of(parts[i].as_slice());
        let escaped = escape(text.as_str());
        let kind = find_kind(text.as_str());
        let segment = Segment { text, escaped, kind };
        let ghost added = segment@;
        out.push(segment);
        assert(value_views(out@) == value_views(was).push(added));
        assert(all[i - 1] == added);
        assert(all.take(i as int) == all.take(i - 1).push(all[i - 1]));
        i += 1;
    }
    assert(all.take(i - 1) == all);
    out
}

/// The rule that a route with segments that are one of many suggests.
pub fn normalize(route: &str) -> (r: Option<(String, String)>)
    ensures
        pair_texts(r) == rule_of(segments_of(route@)),
{
    compose_rule(&read_segments(route))
}

/// A route with the rule that it suggests.
#[derive(Clone, Debug)]
pub struct Candidate {
    pub pattern: String,
    pub replacement: String,
    pub route: String,
}

#[verifier::ext_equal]
pub struct CandidateView {
    pub rule: (Seq<char>, Seq<char>),
    pub route: Seq<char>,
}

impl View for Candidate {
    type V = CandidateView;

    open spec fn view(&self) -> CandidateView {
        CandidateView { rule: (self.pattern@, self.replacement@), route: self.route@ }
    }
}

/// The route that a metric counts the requests of, with the rule that it suggests.
pub open spec fn pick_candidate() -> spec_fn(MetricView) -> Option<CandidateView> {
    |m: MetricView|
        if m.name != "http.requests"@ {
            None
        } else {
            match lookup(m.labels, "route"@) {
                Some(route) => match rule_of(segments_of(route)) {
                    Some(rule) => Some(CandidateView { rule, route }),
                    None => None,
                },
                None => None,
            }
        }
}

fn find_candidates(metrics: &Vec<Metric>) -> (r: Vec<Candidate>)
    ensures
        value_views(r@) == picked(value_views(metrics@), pick_candidate()),
{
    let ghost all = value_views(metrics@);
    let mut out: Vec<Candidate> = Vec::new();
    let mut i: usize = 0;
    assert(all.take(0) == Seq::<MetricView>::empty());
    assert(value_views(out@) == picked(all.take(0), pick_candidate()));
    while i < metrics.len()
        invariant
            i <= metrics@.len(),
            all == value_views(metrics@),
            value_views(out@) == picked(all.take(i as int), pick_candidate()),
        decreases metrics.len() - i,
    {
        proof {
            assert(all[i as int] == metrics@[i as int]@);
            assert(all.take(i + 1).drop_last() == all.take(i as int));
            assert(all.take(i + 1).last() == all[i as int]);
        }
        if same(metrics[i].name.as_str(), "http.requests") {
            match metrics[i].labels.get("route") {
                Some(route) => match normalize(route.as_str()) {
                    Some((pattern, replacement)) => {
                        let ghost was = out@;
                        let candidate = Candidate { pattern, replacement, route: route.clone() };
                        let ghost added = candidate@;
                        out.push(candidate);
                        assert(value_views(out@) == value_views(was).push(added));
                    },
                    None => {},
                },
                None => {},
            }
        }
        i += 1;
    }
    assert(all.take(i as int) == all);
    out
}

/// How many routes are shown with a rule.
pub const EXAMPLES: usize = 3;

pub open spec fn first_examples(routes: Seq<Seq<char>>) -> Seq<Seq<char>> {
    if routes.len() > EXAMPLES {
        routes.take(EXAMPLES as int)
    } else {
        routes
    }
}

/// How a rule is written down, with the first routes that it stands for.
pub open spec fn rule_text(
    routes: Seq<Seq<char>>,
    pattern: Seq<char>,
    replacement: Seq<char>,
) -> Seq<char> {
    "\n# examples: "@ + join(first_examples(routes), ", "@) + "\n[[routes]]\npattern = "@ + pattern
        + "\nreplace = "@ + replacement + "\n"@
}

/// Writes a rule down. The pattern and the replacement are quoted already.
pub fn describe_rule(routes: &Vec<String>, pattern: &str, replacement: &str) -> (r: String)
    ensures
        r@ == rule_text(texts(routes@), pattern@, replacement@),
{
    let ghost all = first_examples(texts(routes@));
    let count = if routes.len() > EXAMPLES {
        EXAMPLES
    } else {
        routes.len()
    };
    assert(texts(routes@).len() == routes@.len());
    let mut parts: Vec<Vec<char>> = Vec::new();
    let mut i: usize = 0;
    assert(views(parts@) == all.take(0));
    while i < count
        invariant
            i <= count <= routes@.len(),
            all == first_examples(texts(routes@)),
            all.len() == count,
            views(parts@) == all.take(i as int),
        decreases count - i,
    {
        let ghost was = parts@;
        let part = chars_of(routes[i].as_str());
        let ghost added = part@;
        parts.push(part);
        assert(views(parts@) == views(was).push(added));
        assert(all[i as int] == added);
        assert(all.take(i + 1) == all.take(i as int).push(all[i as int]));
        i += 1;
    }
    assert(all.take(i as int) == all);
    let examples = joined(parts.as_slice(), chars_of(", ").as_slice());
    let mut out = chars_of("\n# examples: ");
    append(&mut out, examples.as_slice());
    append_str(&mut out, "\n[[routes]]\npattern = ");
    append_str(&mut out, pattern);
    append_str(&mut out, "\nreplace = ");
    append_str(&mut out, replacement);
    append_str(&mut out, "\n");
    string_of(out.as_slice())
}

pub open spec fn candidate_rule() -> spec_fn(CandidateView) -> (Seq<char>, Seq<char>) {
    |c: CandidateView| c.rule
}

pub open spec fn candidate_route() -> spec_fn(CandidateView) -> Seq<char> {
    |c: CandidateView| c.route
}

/// The routes that suggest a rule, each once and in order.
pub open spec fn routes_of(found: Seq<CandidateView>, rule: (Seq<char>, Seq<char>)) -> Seq<
    Seq<char>,
> {
    distinct_sorted::<String>(with_key(found, candidate_rule(), rule).map_values(candidate_route()))
}

/// The rules that candidates suggest, each once and in order.
pub open spec fn rules_of(found: Seq<CandidateView>) -> Seq<(Seq<char>, Seq<char>)> {
    distinct_sorted::<(String, String)>(found.map_values(candidate_rule()))
}

pub open spec fn all_rules(found: Seq<CandidateView>, rules: Seq<(Seq<char>, Seq<char>)>) -> Seq<char>
    decreases rules.len(),
{
    if rules.len() == 0 {
        "# Generated candidates. Review before copying to .isuscope/routes.toml.\n"@
    } else {
        all_rules(found, rules.drop_last()) + rule_text(
            routes_of(found, rules.last()),
            quoted_text(rules.last().0),
            quoted_text(rules.last().1),
        )
    }
}

fn rule_keys(found: &Vec<Candidate>) -> (r: Vec<(String, String)>)
    ensures
        models(r@) == value_views(found@).map_values(candidate_rule()),
{
    let ghost all = value_views(found@).map_values(candidate_rule());
    let mut out: Vec<(String, String)> = Vec::new();
    let mut i: usize = 0;
    assert(models(out@) == all.take(0));
    while i < found.len()
        invariant
            i <= found@.len(),
            all == value_views(found@).map_values(candidate_rule()),
            models(out@) == all.take(i as int),
        decreases found.len() - i,
    {
        let ghost was = out@;
        let key = (found[i].pattern.clone(), found[i].replacement.clone());
        let ghost model = key.model();
        out.push(key);
        assert(models(out@) == models(was).push(model));
        assert(all[i as int] == model);
        assert(all.take(i + 1) == all.take(i as int).push(all[i as int]));
        i += 1;
    }
    assert(all.take(i as int) == all);
    out
}

fn group_routes(group: &Vec<&Candidate>) -> (r: Vec<String>)
    ensures
        texts(r@) == ref_views(group@).map_values(candidate_route()),
{
    let ghost all = ref_views(group@).map_values(candidate_route());
    let mut out: Vec<String> = Vec::new();
    let mut i: usize = 0;
    assert(texts(out@) == all.take(0));
    while i < group.len()
        invariant
            i <= group@.len(),
            all == ref_views(group@).map_values(candidate_route()),
            texts(out@) == all.take(i as int),
        decreases group.len() - i,
    {
        assert(all[i as int] == group@[i as int].route@);
        push_text(&mut out, group[i].route.as_str());
        assert(all.take(i + 1) == all.take(i as int).push(all[i as int]));
        i += 1;
    }
    assert(all.take(i as int) == all);
    out
}

/// Proposes rules for the HTTP routes of a run that still contain dynamic segments: the text, and
/// the number of rules.
pub fn suggest_routes(metrics: &Vec<Metric>) -> (r: (String, usize))
    ensures
        ({
            let found = picked(value_views(metrics@), pick_candidate());
            &&& r.0@ == all_rules(found, rules_of(found))
            &&& r.1 == rules_of(found).len()
        }),
{
    let found = find_candidates(metrics);
    let ghost all = value_views(found@);
    let keys = rule_keys(&found);
    let groups = grouped(found.as_slice(), &keys, Ghost(candidate_rule()));
    let ghost rules = rules_of(all);
    let mut out = chars_of(
        "# Generated candidates. Review before copying to .isuscope/routes.toml.\n",
    );
    let mut g: usize = 0;
    assert(rules.take(0) == Seq::<(Seq<char>, Seq<char>)>::empty());
    while g < groups.len()
        invariant
            g <= groups@.len(),
            all == value_views(found@),
            rules == rules_of(all),
            groups@.len() == rules.len(),
            forall|j: int|
                0 <= j < groups@.len() ==> ref_views((#[trigger] groups@[j])@) == with_key(
                    all,
                    candidate_rule(),
                    rules[j],
                ) && groups@[j]@.len() > 0,
            out@ == all_rules(all, rules.take(g as int)),
        decreases groups.len() - g,
    {
        let group = &groups[g];
        let ghost rule = rules[g as int];
        proof {
            with_key_holds(all, candidate_rule(), rule, 0);
            assert(ref_views(group@)[0] == group@[0]@);
            assert(rules.take(g + 1).drop_last() == rules.take(g as int));
            assert(rules.take(g + 1).last() == rule);
        }
        let routes = crate::brief::distinct_texts(&group_routes(group));
        let pattern = quote(group[0].pattern.as_str());
        let replacement = quote(group[0].replacement.as_str());
        append_str(&mut out, describe_rule(&routes, pattern.as_str(), replacement.as_str()).as_str());
        g += 1;
    }
    assert(rules.take(g as int) == rules);
    (string_of(out.as_slice()), groups.len())
}

/// Every dynamic route of a run is covered by one of the proposed rules.
pub proof fn every_dynamic_route_gets_a_rule(metrics: Seq<MetricView>, i: int)
    requires
        0 <= i < metrics.len(),
        pick_candidate()(metrics[i]) is Some,
    ensures
        ({
            let found = picked(metrics, pick_candidate());
            let own = pick_candidate()(metrics[i])->0;
            rules_of(found).contains(own.rule) && routes_of(found, own.rule).contains(own.route)
        }),
{
    let found = picked(metrics, pick_candidate());
    let own = pick_candidate()(metrics[i])->0;
    picked_holds(metrics, pick_candidate(), i);
    let at = choose|j: int| 0 <= j < found.len() && found[j] == own;
    let keys = found.map_values(candidate_rule());
    crate::order::distinct_sorted_holds::<(String, String)>(keys);
    assert(keys[at] == own.rule);
    assert(keys.contains(own.rule));
    crate::join::with_key_contains(found, candidate_rule(), at);
    let rows = with_key(found, candidate_rule(), own.rule);
    let row = choose|j: int| 0 <= j < rows.len() && rows[j] == own;
    let routes = rows.map_values(candidate_route());
    crate::order::distinct_sorted_holds::<String>(routes);
    assert(routes[row] == own.route);
    assert(routes.contains(own.route));
}

/// What is picked of an item is in the list of all that is picked.
proof fn picked_holds<T, U>(items: Seq<T>, pick: spec_fn(T) -> Option<U>, i: int)
    requires
        0 <= i < items.len(),
        pick(items[i]) is Some,
    ensures
        picked(items, pick).contains(pick(items[i])->0),
    decreases items.len(),
{
    let before = picked(items.drop_last(), pick);
    if i == items.len() - 1 {
        assert(picked(items, pick) == before.push(pick(items[i])->0));
        assert(picked(items, pick)[before.len() as int] == pick(items[i])->0);
    } else {
        picked_holds(items.drop_last(), pick, i);
        let j = choose|j: int| 0 <= j < before.len() && before[j] == pick(items[i])->0;
        assert(picked(items, pick)[j] == before[j]);
    }
}

} // verus!
