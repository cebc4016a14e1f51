//! What two runs have in common beside their scores: a difference between scores says little where
//! more than the change under test differs.
use crate::brief::distinct_texts;
use crate::labels::{lookup, Labels};
use crate::model::{Fingerprint, RunManifest, SourceSnapshot, ToolingSnapshot};
use crate::order::distinct_sorted;
use crate::report::text_option;
use crate::text::{chars_of, glue3, same, starts, starts_with, texts};
use vstd::prelude::*;

verus! {

/// Whether something was the same in two runs. What is not known is not the same.
#[derive(Clone, Copy, Debug, PartialEq, Eq, Structural)]
pub enum Premise {
    Same,
    Changed,
    Unknown,
}

impl Premise {
    pub open spec fn name(self) -> Seq<char> {
        match self {
            Premise::Same => "same"@,
            Premise::Changed => "changed"@,
            Premise::Unknown => "unknown"@,
        }
    }

    pub fn as_str(self) -> (r: &'static str)
        ensures
            r@ == self.name(),
    {
        match self {
            Premise::Same => "same",
            Premise::Changed => "changed",
            Premise::Unknown => "unknown",
        }
    }
}

/// The premises of a comparison.
#[derive(Clone, Debug)]
pub struct Premises {
    /// The state of the source.
    pub source: Premise,
    /// The configuration, the route rules, the adapters and the version of the program.
    pub observation: Premise,
    /// What the nodes are made of.
    pub environment: Premise,
    /// The fingerprints whose values differ, each with its node.
    pub changed_fingerprints: Vec<String>,
    /// The side that makes the load.
    pub benchmark: Premise,
}

pub open spec fn source_premise(base: SourceSnapshot, candidate: SourceSnapshot) -> Premise {
    if base.state_sha256@.len() == 0 || candidate.state_sha256@.len() == 0 {
        Premise::Unknown
    } else if base.state_sha256@ == candidate.state_sha256@ {
        Premise::Same
    } else {
        Premise::Changed
    }
}

pub fn compare_sources(base: &SourceSnapshot, candidate: &SourceSnapshot) -> (r: Premise)
    ensures
        r == source_premise(*base, *candidate),
{
    let a = base.state_sha256.as_str();
    let b = candidate.state_sha256.as_str();
    if chars_of(a).len() == 0 || chars_of(b).len() == 0 {
        Premise::Unknown
    } else if same(a, b) {
        Premise::Same
    } else {
        Premise::Changed
    }
}

/// The tooling of a run was captured.
pub open spec fn is_captured(tooling: ToolingSnapshot) -> bool {
    tooling.error is None && tooling.config_sha256@.len() > 0
}

/// Two runs observed with the same files and the same program.
pub open spec fn same_tooling(a: ToolingSnapshot, b: ToolingSnapshot) -> bool {
    &&& a.isuscope_version@ == b.isuscope_version@
    &&& a.config_sha256@ == b.config_sha256@
    &&& text_option(a.routes_sha256) == text_option(b.routes_sha256)
    &&& text_option(a.setup_script_sha256) == text_option(b.setup_script_sha256)
    &&& text_option(a.setup_state_sha256) == text_option(b.setup_state_sha256)
    &&& a.extra_files_sha256@ == b.extra_files_sha256@
}

pub open spec fn observation_premise(base: ToolingSnapshot, candidate: ToolingSnapshot) -> Premise {
    if !is_captured(base) || !is_captured(candidate) {
        Premise::Unknown
    } else if same_tooling(base, candidate) {
        Premise::Same
    } else {
        Premise::Changed
    }
}

fn captured(tooling: &ToolingSnapshot) -> (r: bool)
    ensures
        r == is_captured(*tooling),
{
    tooling.error.is_none() && chars_of(tooling.config_sha256.as_str()).len() > 0
}

fn same_digest(a: &Option<String>, b: &Option<String>) -> (r: bool)
    ensures
        r == (text_option(*a) == text_option(*b)),
{
    match (a, b) {
        (Some(x), Some(y)) => same(x.as_str(), y.as_str()),
        (None, None) => true,
        _ => false,
    }
}

fn same_files(a: &Labels, b: &Labels) -> (r: bool)
    ensures
        r == (a@ == b@),
{
    if a.len() != b.len() {
        return false;
    }
    let mut i: usize = 0;
    while i < a.len()
        invariant
            i <= a@.len(),
            a@.len() == b@.len(),
            forall|j: int| 0 <= j < i ==> #[trigger] a@[j] == b@[j],
        decreases a@.len() - i,
    {
        if !same(a.key(i).as_str(), b.key(i).as_str()) || !same(
            a.value(i).as_str(),
            b.value(i).as_str(),
        ) {
            assert(a@[i as int] != b@[i as int]);
            return false;
        }
        i += 1;
    }
    assert(a@ == b@);
    true
}

pub fn compare_observations(base: &ToolingSnapshot, candidate: &ToolingSnapshot) -> (r: Premise)
    ensures
        r == observation_premise(*base, *candidate),
{
    if !captured(base) || !captured(candidate) {
        return Premise::Unknown;
    }
    if same(base.isuscope_version.as_str(), candidate.isuscope_version.as_str()) && same(
        base.config_sha256.as_str(),
        candidate.config_sha256.as_str(),
    ) && same_digest(&base.routes_sha256, &candidate.routes_sha256) && same_digest(
        &base.setup_script_sha256,
        &candidate.setup_script_sha256,
    ) && same_digest(&base.setup_state_sha256, &candidate.setup_state_sha256)
        && same_files(
        &base.extra_files_sha256,
        &candidate.extra_files_sha256,
    ) {
        Premise::Same
    } else {
        Premise::Changed
    }
}

/// What a fingerprint is of: its name and its node.
pub open spec fn subject(f: Fingerprint) -> (Seq<char>, Option<Seq<char>>) {
    (f.name@, lookup(f.labels@, "node"@))
}

/// The value that a run found last for a subject.
pub open spec fn found_value(
    prints: Seq<Fingerprint>,
    of: (Seq<char>, Option<Seq<char>>),
) -> Option<Seq<char>>
    decreases prints.len(),
{
    if prints.len() == 0 {
        None
    } else if subject(prints.last()) == of {
        Some(prints.last().value@)
    } else {
        found_value(prints.drop_last(), of)
    }
}

/// Both runs found a value for the subject, and not the same.
pub open spec fn moved(
    base: Seq<Fingerprint>,
    candidate: Seq<Fingerprint>,
    of: (Seq<char>, Option<Seq<char>>),
) -> bool {
    &&& found_value(base, of) is Some
    &&& found_value(candidate, of) is Some
    &&& found_value(base, of) != found_value(candidate, of)
}

pub open spec fn any_moved(base: Seq<Fingerprint>, candidate: Seq<Fingerprint>) -> bool {
    exists|i: int| 0 <= i < base.len() && moved(base, candidate, #[trigger] subject(base[i]))
}

/// Every subject of one run was looked at in the other.
pub open spec fn covered(prints: Seq<Fingerprint>, by: Seq<Fingerprint>) -> bool {
    forall|i: int|
        0 <= i < prints.len() ==> found_value(by, #[trigger] subject(prints[i])) is Some
}

pub open spec fn environment_premise(base: Seq<Fingerprint>, candidate: Seq<Fingerprint>) -> Premise {
    if any_moved(base, candidate) {
        Premise::Changed
    } else if base.len() == 0 || candidate.len() == 0 || !covered(base, candidate) || !covered(
        candidate,
        base,
    ) {
        Premise::Unknown
    } else {
        Premise::Same
    }
}

/// A subject as it is shown.
pub open spec fn subject_text(of: (Seq<char>, Option<Seq<char>>)) -> Seq<char> {
    match of.1 {
        Some(node) => of.0 + "@"@ + node,
        None => of.0,
    }
}

pub open spec fn is_moved(base: Seq<Fingerprint>, candidate: Seq<Fingerprint>) -> spec_fn(
    Fingerprint,
) -> bool {
    |f: Fingerprint| moved(base, candidate, subject(f))
}

pub open spec fn shown_subject() -> spec_fn(Fingerprint) -> Seq<char> {
    |f: Fingerprint| subject_text(subject(f))
}

/// The subjects whose values differ, in order.
pub open spec fn moved_subjects(base: Seq<Fingerprint>, candidate: Seq<Fingerprint>) -> Seq<Seq<char>> {
    distinct_sorted::<String>(base.filter(is_moved(base, candidate)).map_values(shown_subject()))
}

fn same_subject(a: &Fingerprint, b: &Fingerprint) -> (r: bool)
    ensures
        r == (subject(*a) == subject(*b)),
{
    if !same(a.name.as_str(), b.name.as_str()) {
        return false;
    }
    match (a.labels.get("node"), b.labels.get("node")) {
        (Some(x), Some(y)) => same(x.as_str(), y.as_str()),
        (None, None) => true,
        _ => false,
    }
}

fn find_value<'a>(prints: &'a Vec<Fingerprint>, of: &Fingerprint) -> (r: Option<&'a String>)
    ensures
        match r {
            Some(value) => found_value(prints@, subject(*of)) == Some(value@),
            None => found_value(prints@, subject(*of)) is None,
        },
{
    let mut n: usize = prints.len();
    assert(prints@.take(n as int) == prints@);
    while n > 0
        invariant
            n <= prints@.len(),
            found_value(prints@, subject(*of)) == found_value(
                prints@.take(n as int),
                subject(*of),
            ),
        decreases n,
    {
        let ghost now = prints@.take(n as int);
        assert(now.drop_last() == prints@.take(n - 1));
        assert(now.last() == prints@[n - 1]);
        if same_subject(&prints[n - 1], of) {
            return Some(&prints[n - 1].value);
        }
        n -= 1;
    }
    assert(prints@.take(0).len() == 0);
    None
}

fn has_moved(base: &Vec<Fingerprint>, candidate: &Vec<Fingerprint>, of: &Fingerprint) -> (r: bool)
    ensures
        r == moved(base@, candidate@, subject(*of)),
{
    match (find_value(base, of), find_value(candidate, of)) {
        (Some(a), Some(b)) => !same(a.as_str(), b.as_str()),
        _ => false,
    }
}

fn covers(prints: &Vec<Fingerprint>, by: &Vec<Fingerprint>) -> (r: bool)
    ensures
        r == covered(prints@, by@),
{
    let mut i: usize = 0;
    while i < prints.len()
        invariant
            i <= prints@.len(),
            forall|j: int|
                0 <= j < i ==> found_value(by@, #[trigger] subject(prints@[j])) is Some,
        decreases prints.len() - i,
    {
        if find_value(by, &prints[i]).is_none() {
            assert(found_value(by@, subject(prints@[i as int])) is None);
            return false;
        }
        i += 1;
    }
    true
}

fn show_subject(f: &Fingerprint) -> (r: String)
    ensures
        r@ == subject_text(subject(*f)),
{
    match f.labels.get("node") {
        Some(node) => glue3(f.name.as_str(), "@", node.as_str()),
        None => f.name.clone(),
    }
}

/// Compares what the nodes of two runs were made of.
pub fn compare_environments(base: &Vec<Fingerprint>, candidate: &Vec<Fingerprint>) -> (r: (
    Premise,
    Vec<String>,
))
    ensures
        r.0 == environment_premise(base@, candidate@),
        texts(r.1@) == moved_subjects(base@, candidate@),
{
    let ghost p = is_moved(base@, candidate@);
    let mut shown: Vec<String> = Vec::new();
    let mut any = false;
    let mut i: usize = 0;
    proof {
        reveal(Seq::filter);
        assert(base@.take(0) == Seq::<Fingerprint>::empty());
        assert(texts(shown@) == base@.take(0).filter(p).map_values(shown_subject()));
    }
    while i < base.len()
        invariant
            i <= base@.len(),
            p == is_moved(base@, candidate@),
            texts(shown@) == base@.take(i as int).filter(p).map_values(shown_subject()),
            any == exists|j: int|
                0 <= j < i && moved(base@, candidate@, #[trigger] subject(base@[j])),
        decreases base.len() - i,
    {
        let ghost head = base@.take(i as int).filter(p);
        proof {
            reveal(Seq::filter);
            assert(base@.take(i + 1).drop_last() == base@.take(i as int));
            assert(base@.take(i + 1).last() == base@[i as int]);
        }
        if has_moved(base, candidate, &base[i]) {
            any = true;
            let text = show_subject(&base[i]);
            let ghost was = shown@;
            shown.push(text);
            assert(texts(shown@) == texts(was).push(text@));
            assert(head.push(base@[i as int]).map_values(shown_subject()) == head.map_values(
                shown_subject(),
            ).push(text@));
        }
        i += 1;
    }
    assert(base@.take(i as int) == base@);
    let premise = if any {
        Premise::Changed
    } else if base.len() == 0 || candidate.len() == 0 || !covers(base, candidate) || !covers(
        candidate,
        base,
    ) {
        Premise::Unknown
    } else {
        Premise::Same
    };
    (premise, distinct_texts(&shown))
}

/// A tag that says under which conditions the load was made.
pub open spec fn bench_tag() -> spec_fn(Seq<char>) -> bool {
    |tag: Seq<char>| starts(tag, "bench:"@)
}

pub open spec fn bench_tags(tags: Seq<String>) -> Seq<Seq<char>> {
    texts(tags).filter(bench_tag())
}

/// The nodes do not see how the load is made: only runs that say it can be compared.
pub open spec fn benchmark_premise(base: Seq<String>, candidate: Seq<String>) -> Premise {
    if bench_tags(base).len() == 0 || bench_tags(candidate).len() == 0 {
        Premise::Unknown
    } else if bench_tags(base) == bench_tags(candidate) {
        Premise::Same
    } else {
        Premise::Changed
    }
}

fn read_bench_tags(tags: &Vec<String>) -> (r: Vec<String>)
    ensures
        texts(r@) == bench_tags(tags@),
{
    let mut out: Vec<String> = Vec::new();
    let mut i: usize = 0;
    proof {
        reveal(Seq::filter);
        assert(texts(tags@).take(0) == Seq::<Seq<char>>::empty());
        assert(texts(out@) == texts(tags@).take(0).filter(bench_tag()));
    }
    while i < tags.len()
        invariant
            i <= tags@.len(),
            texts(out@) == texts(tags@).take(i as int).filter(bench_tag()),
        decreases tags.len() - i,
    {
        proof {
            reveal(Seq::filter);
            assert(texts(tags@).take(i + 1).drop_last() == texts(tags@).take(i as int));
            assert(texts(tags@).take(i + 1).last() == tags@[i as int]@);
        }
        let tag = chars_of(tags[i].as_str());
        if starts_with(tag.as_slice(), chars_of("bench:").as_slice()) {
            let ghost was = out@;
            out.push(tags[i].clone());
            assert(texts(out@) == texts(was).push(tags@[i as int]@));
        }
        i += 1;
    }
    assert(texts(tags@).take(i as int) == texts(tags@));
    out
}

pub fn compare_benchmarks(base: &Vec<String>, candidate: &Vec<String>) -> (r: Premise)
    ensures
        r == benchmark_premise(base@, candidate@),
{
    let a = read_bench_tags(base);
    let b = read_bench_tags(candidate);
    assert(texts(a@).len() == a@.len());
    assert(texts(b@).len() == b@.len());
    if a.len() == 0 || b.len() == 0 {
        return Premise::Unknown;
    }
    if a.len() != b.len() {
        return Premise::Changed;
    }
    let mut i: usize = 0;
    while i < a.len()
        invariant
            i <= a@.len(),
            a@.len() == b@.len(),
            texts(a@) == bench_tags(base@),
            texts(b@) == bench_tags(candidate@),
            a@.len() > 0,
            forall|j: int| 0 <= j < i ==> (#[trigger] a@[j])@ == b@[j]@,
        decreases a.len() - i,
    {
        if !same(a[i].as_str(), b[i].as_str()) {
            assert(texts(a@)[i as int] != texts(b@)[i as int]);
            return Premise::Changed;
        }
        i += 1;
    }
    assert(texts(a@) == texts(b@));
    Premise::Same
}

/// The premises of comparing two runs.
pub open spec fn premises_of(
    base: RunManifest,
    base_prints: Seq<Fingerprint>,
    candidate: RunManifest,
    candidate_prints: Seq<Fingerprint>,
    p: Premises,
) -> bool {
    &&& p.source == source_premise(base.source, candidate.source)
    &&& p.observation == observation_premise(base.tooling, candidate.tooling)
    &&& p.environment == environment_premise(base_prints, candidate_prints)
    &&& texts(p.changed_fingerprints@) == moved_subjects(base_prints, candidate_prints)
    &&& p.benchmark == benchmark_premise(base.tags@, candidate.tags@)
}

/// Finds out what two runs have in common.
pub fn compare_premises(
    base: &RunManifest,
    base_prints: &Vec<Fingerprint>,
    candidate: &RunManifest,
    candidate_prints: &Vec<Fingerprint>,
) -> (r: Premises)
    ensures
        premises_of(*base, base_prints@, *candidate, candidate_prints@, r),
{
    let (environment, changed_fingerprints) = compare_environments(base_prints, candidate_prints);
    Premises {
        source: compare_sources(&base.source, &candidate.source),
        observation: compare_observations(&base.tooling, &candidate.tooling),
        environment,
        changed_fingerprints,
        benchmark: compare_benchmarks(&base.tags, &candidate.tags),
    }
}

proof fn found_somewhere(prints: Seq<Fingerprint>, of: (Seq<char>, Option<Seq<char>>))
    requires
        found_value(prints, of) is Some,
    ensures
        exists|i: int| 0 <= i < prints.len() && #[trigger] subject(prints[i]) == of,
    decreases prints.len(),
{
    if subject(prints.last()) == of {
        assert(subject(prints[prints.len() - 1]) == of);
    } else {
        let head = prints.drop_last();
        found_somewhere(head, of);
        let i = choose|i: int| 0 <= i < head.len() && #[trigger] subject(head[i]) == of;
        assert(subject(prints[i]) == of);
    }
}

proof fn movement_is_mutual(base: Seq<Fingerprint>, candidate: Seq<Fingerprint>)
    requires
        any_moved(base, candidate),
    ensures
        any_moved(candidate, base),
{
    let i = choose|i: int|
        0 <= i < base.len() && moved(base, candidate, #[trigger] subject(base[i]));
    found_somewhere(candidate, subject(base[i]));
    let j = choose|j: int|
        0 <= j < candidate.len() && #[trigger] subject(candidate[j]) == subject(base[i]);
    assert(moved(candidate, base, subject(candidate[j])));
}

/// Which of two runs is the base does not decide whether something changed.
pub proof fn premises_are_mutual(
    base: Seq<Fingerprint>,
    candidate: Seq<Fingerprint>,
    base_tags: Seq<String>,
    candidate_tags: Seq<String>,
    base_source: SourceSnapshot,
    candidate_source: SourceSnapshot,
    base_tooling: ToolingSnapshot,
    candidate_tooling: ToolingSnapshot,
)
    ensures
        environment_premise(base, candidate) == environment_premise(candidate, base),
        benchmark_premise(base_tags, candidate_tags) == benchmark_premise(
            candidate_tags,
            base_tags,
        ),
        source_premise(base_source, candidate_source) == source_premise(
            candidate_source,
            base_source,
        ),
        observation_premise(base_tooling, candidate_tooling) == observation_premise(
            candidate_tooling,
            base_tooling,
        ),
{
    if any_moved(base, candidate) {
        movement_is_mutual(base, candidate);
    }
    if any_moved(candidate, base) {
        movement_is_mutual(candidate, base);
    }
}

/// What is not known is not the same: a premise is called the same only where both runs tell of it,
/// and tell the same.
pub proof fn the_unknown_is_not_the_same(
    base: Seq<Fingerprint>,
    candidate: Seq<Fingerprint>,
    base_tags: Seq<String>,
    candidate_tags: Seq<String>,
    base_source: SourceSnapshot,
    candidate_source: SourceSnapshot,
    base_tooling: ToolingSnapshot,
    candidate_tooling: ToolingSnapshot,
)
    ensures
        environment_premise(base, candidate) == Premise::Same ==> base.len() > 0 && candidate.len()
            > 0 && forall|of: (Seq<char>, Option<Seq<char>>)| #[trigger]
            found_value(base, of) == found_value(candidate, of),
        benchmark_premise(base_tags, candidate_tags) == Premise::Same ==> bench_tags(
            base_tags,
        ).len() > 0 && bench_tags(base_tags) == bench_tags(candidate_tags),
        source_premise(base_source, candidate_source) == Premise::Same
            ==> base_source.state_sha256@.len() > 0 && base_source.state_sha256@
            == candidate_source.state_sha256@,
        observation_premise(base_tooling, candidate_tooling) == Premise::Same ==> is_captured(
            base_tooling,
        ) && is_captured(candidate_tooling) && same_tooling(base_tooling, candidate_tooling),
{
    if environment_premise(base, candidate) == Premise::Same {
        assert forall|of: (Seq<char>, Option<Seq<char>>)| #[trigger]
            found_value(base, of) == found_value(candidate, of) by {
            if found_value(base, of) is Some {
                found_somewhere(base, of);
                let i = choose|i: int| 0 <= i < base.len() && #[trigger] subject(base[i]) == of;
                assert(found_value(candidate, subject(base[i])) is Some);
                assert(!moved(base, candidate, subject(base[i])));
            } else if found_value(candidate, of) is Some {
                found_somewhere(candidate, of);
                let j = choose|j: int|
                    0 <= j < candidate.len() && #[trigger] subject(candidate[j]) == of;
                assert(found_value(base, subject(candidate[j])) is Some);
            }
        }
    }
}

} // verus!
