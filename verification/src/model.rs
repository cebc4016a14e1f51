//! What is recorded of a run.
use crate::join::value_views;
use crate::labels::{Labels, Pair};
use crate::moment::{to_micros, whole_micros, BucketGrid, Moment};
use crate::number::Number;
use crate::text::texts;
use vstd::prelude::*;

verus! {

#[derive(Clone, Copy, Debug, PartialEq, Eq, Structural)]
pub enum RunMode {
    Run,
    SurveyRun,
    /// Kept so that old records can be read; new runs cannot select it.
    ScoreRun,
}

impl RunMode {
    pub open spec fn name(self) -> Seq<char> {
        match self {
            RunMode::Run => "run"@,
            RunMode::SurveyRun => "survey-run"@,
            RunMode::ScoreRun => "score-run"@,
        }
    }

    pub fn as_str(self) -> (r: &'static str)
        ensures
            r@ == self.name(),
    {
        match self {
            RunMode::Run => "run",
            RunMode::SurveyRun => "survey-run",
            RunMode::ScoreRun => "score-run",
        }
    }
}

#[derive(Clone, Copy, Debug, PartialEq, Eq, Structural)]
pub enum RunState {
    Running,
    Complete,
    Degraded,
    Failed,
    Aborted,
}

impl RunState {
    pub open spec fn name(self) -> Seq<char> {
        match self {
            RunState::Running => "running"@,
            RunState::Complete => "complete"@,
            RunState::Degraded => "degraded"@,
            RunState::Failed => "failed"@,
            RunState::Aborted => "aborted"@,
        }
    }

    pub fn as_str(self) -> (r: &'static str)
        ensures
            r@ == self.name(),
    {
        match self {
            RunState::Running => "running",
            RunState::Complete => "complete",
            RunState::Degraded => "degraded",
            RunState::Failed => "failed",
            RunState::Aborted => "aborted",
        }
    }
}

#[derive(Clone, Copy, Debug, PartialEq, Eq, Structural)]
pub enum AnalysisStatus {
    NotRequired,
    Pending,
    Complete,
    Skipped,
}

impl AnalysisStatus {
    pub open spec fn name(self) -> Seq<char> {
        match self {
            AnalysisStatus::NotRequired => "not_required"@,
            AnalysisStatus::Pending => "pending"@,
            AnalysisStatus::Complete => "complete"@,
            AnalysisStatus::Skipped => "skipped"@,
        }
    }

    pub fn as_str(self) -> (r: &'static str)
        ensures
            r@ == self.name(),
    {
        match self {
            AnalysisStatus::NotRequired => "not_required",
            AnalysisStatus::Pending => "pending",
            AnalysisStatus::Complete => "complete",
            AnalysisStatus::Skipped => "skipped",
        }
    }
}

impl Default for AnalysisStatus {
    fn default() -> (r: AnalysisStatus)
        ensures
            r == AnalysisStatus::NotRequired,
    {
        AnalysisStatus::NotRequired
    }
}

#[derive(Clone, Copy, Debug, PartialEq, Eq, Structural)]
pub enum AnalysisVerdict {
    Supported,
    Rejected,
    Inconclusive,
    Skipped,
}

impl AnalysisVerdict {
    pub open spec fn name(self) -> Seq<char> {
        match self {
            AnalysisVerdict::Supported => "supported"@,
            AnalysisVerdict::Rejected => "rejected"@,
            AnalysisVerdict::Inconclusive => "inconclusive"@,
            AnalysisVerdict::Skipped => "skipped"@,
        }
    }

    pub fn as_str(self) -> (r: &'static str)
        ensures
            r@ == self.name(),
    {
        match self {
            AnalysisVerdict::Supported => "supported",
            AnalysisVerdict::Rejected => "rejected",
            AnalysisVerdict::Inconclusive => "inconclusive",
            AnalysisVerdict::Skipped => "skipped",
        }
    }
}

#[derive(Clone, Debug)]
pub struct RunAnalysis {
    pub id: String,
    pub created_at: Moment,
    pub verdict: AnalysisVerdict,
    pub body: String,
    pub base_run_id: Option<String>,
}

#[derive(Clone, Debug, Default)]
pub struct FileDigest {
    pub path: String,
    pub sha256: String,
}

#[derive(Clone, Debug, Default)]
pub struct SourceSnapshot {
    pub repository: String,
    pub git_available: bool,
    pub commit_hash: Option<String>,
    pub branch: Option<String>,
    pub dirty: bool,
    pub state_sha256: String,
    pub untracked: Vec<FileDigest>,
    pub error: Option<String>,
}

#[derive(Clone, Debug)]
pub struct ToolingSnapshot {
    pub isuscope_version: String,
    pub config_sha256: String,
    pub routes_sha256: Option<String>,
    pub setup_script_sha256: Option<String>,
    pub setup_state_sha256: Option<String>,
    pub extra_files_sha256: Labels,
    pub error: Option<String>,
}

#[derive(Clone, Debug)]
pub struct AgentContext {
    /// Records made when there was one agent name none: theirs is Codex.
    pub agent: String,
    pub history_path: String,
    pub session_id: String,
    pub input_id: String,
    pub snapshot_path: String,
    pub sha256: String,
}

#[derive(Clone, Debug, Default)]
pub struct BenchmarkResult {
    pub mode: String,
    pub command: Vec<String>,
    pub exit_code: Option<i32>,
    pub score: Option<i64>,
    pub passed: Option<bool>,
    pub interrupted: bool,
    pub messages: Vec<String>,
    pub started_at: Option<Moment>,
    pub finished_at: Option<Moment>,
    pub initialize_started_at: Option<Moment>,
    pub initialize_finished_at: Option<Moment>,
    pub error: Option<String>,
    /// Lines for the organizers that were dropped before anything was saved.
    pub operator_lines_dropped: usize,
}

/// Every moment that the result holds lies in the calendar.
pub open spec fn on_calendar(at: Option<Moment>) -> bool {
    at matches Some(t) ==> t.valid()
}

pub open spec fn cut(at: Option<Moment>) -> Option<Moment> {
    match at {
        Some(t) => Some(whole_micros(t)),
        None => None,
    }
}

impl BenchmarkResult {
    /// Where the buckets are counted from: the end of the initialization, which is the start of
    /// the load, or else the start of the benchmark.
    pub open spec fn origin(self) -> Option<Moment> {
        cut(
            if self.initialize_finished_at is Some {
                self.initialize_finished_at
            } else {
                self.started_at
            },
        )
    }

    pub fn bucket_origin(&self) -> (r: Option<Moment>)
        requires
            on_calendar(self.initialize_finished_at),
            on_calendar(self.started_at),
        ensures
            r == self.origin(),
            on_calendar(r),
    {
        match self.initialize_finished_at {
            Some(at) => Some(to_micros(at)),
            None => match self.started_at {
                Some(at) => Some(to_micros(at)),
                None => None,
            },
        }
    }

    pub fn bucket_grid(&self) -> (r: BucketGrid)
        requires
            on_calendar(self.initialize_finished_at),
            on_calendar(self.started_at),
        ensures
            r.origin == self.origin(),
            r.begin == cut(self.started_at),
            on_calendar(r.origin),
            on_calendar(r.begin),
    {
        BucketGrid {
            origin: self.bucket_origin(),
            begin: match self.started_at {
                Some(at) => Some(to_micros(at)),
                None => None,
            },
        }
    }
}

#[derive(Clone, Debug)]
pub struct Metric {
    pub name: String,
    pub value: Number,
    pub unit: String,
    /// When the value was observed; aggregates have no such moment.
    pub timestamp: Option<Moment>,
    pub labels: Labels,
}

/// What a metric says.
#[verifier::ext_equal]
pub struct MetricView {
    pub name: Seq<char>,
    pub value: Number,
    pub unit: Seq<char>,
    pub timestamp: Option<Moment>,
    pub labels: Seq<Pair>,
}

impl View for Metric {
    type V = MetricView;

    open spec fn view(&self) -> MetricView {
        MetricView {
            name: self.name@,
            value: self.value,
            unit: self.unit@,
            timestamp: self.timestamp,
            labels: self.labels@,
        }
    }
}

/// Makes a metric.
pub fn metric(
    name: &str,
    value: Number,
    unit: &str,
    timestamp: Option<Moment>,
    labels: &Labels,
) -> (r: Metric)
    ensures
        r@ == (MetricView { name: name@, value, unit: unit@, timestamp, labels: labels@ }),
{
    Metric {
        name: name.to_owned(),
        value,
        unit: unit.to_owned(),
        timestamp,
        labels: labels.clone(),
    }
}

/// Adds a metric to a list.
pub fn add_metric(
    metrics: &mut Vec<Metric>,
    name: &str,
    value: Number,
    unit: &str,
    timestamp: Option<Moment>,
    labels: &Labels,
)
    ensures
        value_views(final(metrics)@) == value_views(old(metrics)@).push(
            (MetricView { name: name@, value, unit: unit@, timestamp, labels: labels@ }),
        ),
{
    let ghost was = metrics@;
    let added = metric(name, value, unit, timestamp, labels);
    metrics.push(added);
    assert(value_views(metrics@) == value_views(was).push(added@));
}

#[derive(Clone, Debug)]
pub struct Fingerprint {
    pub name: String,
    pub value: String,
    pub labels: Labels,
}

#[derive(Clone, Debug)]
pub struct Transition {
    pub from_route: String,
    pub to_route: String,
    pub count: i64,
    pub p50_ms: Option<Number>,
    pub p95_ms: Option<Number>,
}

/// The mathematical value of a transition.
#[verifier::ext_equal]
pub struct TransitionView {
    pub from_route: Seq<char>,
    pub to_route: Seq<char>,
    pub count: i64,
    pub p50_ms: Option<Number>,
    pub p95_ms: Option<Number>,
}

impl View for Transition {
    type V = TransitionView;

    open spec fn view(&self) -> TransitionView {
        TransitionView {
            from_route: self.from_route@,
            to_route: self.to_route@,
            count: self.count,
            p50_ms: self.p50_ms,
            p95_ms: self.p95_ms,
        }
    }
}

#[derive(Clone, Debug)]
pub struct LogRef {
    pub id: String,
    pub kind: String,
    pub node: Option<String>,
}

#[derive(Clone, Debug)]
pub struct CollectorResult {
    pub name: String,
    pub node: Option<String>,
    pub phase: String,
    pub status: String,
    pub exit_code: Option<i32>,
    pub error: Option<String>,
    pub log_ids: Vec<String>,
}

#[derive(Clone, Copy, Debug, PartialEq, Eq, Structural)]
pub enum BenchmarkMessageKind {
    /// Why the benchmark failed.
    Failure,
    /// A representative error that the benchmark reported.
    Error,
}

impl BenchmarkMessageKind {
    pub open spec fn name(self) -> Seq<char> {
        match self {
            BenchmarkMessageKind::Failure => "failure"@,
            BenchmarkMessageKind::Error => "error"@,
        }
    }

    pub fn as_str(self) -> (r: &'static str)
        ensures
            r@ == self.name(),
    {
        match self {
            BenchmarkMessageKind::Failure => "failure",
            BenchmarkMessageKind::Error => "error",
        }
    }
}

/// A benchmark output line that a parser kept verbatim.
#[derive(Clone, Debug, PartialEq, Eq)]
pub struct BenchmarkMessage {
    pub kind: BenchmarkMessageKind,
    pub category: Option<String>,
    pub text: String,
}

#[derive(Clone, Debug)]
pub struct EnrichmentResult {
    pub name: String,
    pub status: String,
    pub command: Vec<String>,
    pub exit_code: Option<i32>,
    pub error: Option<String>,
    pub log_ids: Vec<String>,
    pub tooling_path: Option<String>,
    pub messages: Vec<BenchmarkMessage>,
    /// Messages that the sample limits dropped.
    pub omitted_message_count: usize,
}

#[derive(Clone, Debug)]
pub struct RunManifest {
    pub schema_version: u32,
    pub id: String,
    pub mode: RunMode,
    pub state: RunState,
    pub started_at: Moment,
    pub finished_at: Option<Moment>,
    pub hypothesis: String,
    pub analysis_status: AnalysisStatus,
    pub analyses: Vec<RunAnalysis>,
    pub note: Option<String>,
    pub tags: Vec<String>,
    pub source: SourceSnapshot,
    pub tooling: ToolingSnapshot,
    pub agent_context: Option<AgentContext>,
    pub benchmark: BenchmarkResult,
    pub collectors: Vec<CollectorResult>,
    pub enrichments: Vec<EnrichmentResult>,
    pub logs: Vec<LogRef>,
    pub metric_count: usize,
    pub fingerprint_count: usize,
    pub transition_count: usize,
    /// The file of the structured snapshot that belongs to this record.
    pub structured_snapshot: Option<String>,
}

/// Some collector or some benchmark parser failed.
pub open spec fn observation_failed(
    collectors: Seq<CollectorResult>,
    enrichments: Seq<EnrichmentResult>,
) -> bool {
    ||| exists|i: int| 0 <= i < collectors.len() && (#[trigger] collectors[i]).status@ == "failed"@
    ||| exists|i: int|
        0 <= i < enrichments.len() && (#[trigger] enrichments[i]).status@ == "failed"@
}

/// The state that a finished benchmark and its observation come to.
pub open spec fn settled(passed: Option<bool>, interrupted: bool, failed: bool) -> RunState {
    if interrupted {
        RunState::Aborted
    } else if passed == Some(true) {
        if failed {
            RunState::Degraded
        } else {
            RunState::Complete
        }
    } else {
        RunState::Failed
    }
}

/// The messages of all parsers, in parser order.
pub open spec fn all_messages(enrichments: Seq<EnrichmentResult>) -> Seq<BenchmarkMessage>
    decreases enrichments.len(),
{
    if enrichments.len() == 0 {
        Seq::empty()
    } else {
        all_messages(enrichments.drop_last()) + enrichments.last().messages@
    }
}

pub open spec fn messages_of_kind(
    messages: Seq<BenchmarkMessage>,
    kind: BenchmarkMessageKind,
) -> Seq<BenchmarkMessage> {
    messages.filter(|m: BenchmarkMessage| m.kind == kind)
}

pub open spec fn message_texts(messages: Seq<BenchmarkMessage>) -> Seq<Seq<char>> {
    messages.map_values(|m: BenchmarkMessage| m.text@)
}

/// Why a run did not pass: the failure lines of the parsers, or the error of the benchmark itself
/// where the parsers gave none.
pub open spec fn reasons(manifest: RunManifest) -> Seq<Seq<char>> {
    let parsed = messages_of_kind(
        all_messages(manifest.enrichments@),
        BenchmarkMessageKind::Failure,
    );
    if manifest.benchmark.passed == Some(true) {
        Seq::empty()
    } else if parsed.len() > 0 {
        message_texts(parsed)
    } else {
        match manifest.benchmark.error {
            Some(error) => seq![error@],
            None => Seq::empty(),
        }
    }
}

impl RunManifest {
    /// Decides the state of the run from the results of the benchmark, the collectors and the
    /// benchmark parsers.
    pub fn settle_state(&mut self)
        ensures
            *final(self) == (RunManifest {
                state: settled(
                    old(self).benchmark.passed,
                    old(self).benchmark.interrupted,
                    observation_failed(old(self).collectors@, old(self).enrichments@),
                ),
                ..*old(self)
            }),
    {
        let mut failed = false;
        let mut i: usize = 0;
        while i < self.collectors.len()
            invariant
                i <= self.collectors@.len(),
                *self == *old(self),
                failed == exists|j: int|
                    0 <= j < i && (#[trigger] self.collectors@[j]).status@ == "failed"@,
            decreases self.collectors.len() - i,
        {
            if crate::text::same(self.collectors[i].status.as_str(), "failed") {
                failed = true;
            }
            i += 1;
        }
        let collector_degraded = failed;
        let mut j: usize = 0;
        failed = false;
        while j < self.enrichments.len()
            invariant
                j <= self.enrichments@.len(),
                *self == *old(self),
                failed == exists|k: int|
                    0 <= k < j && (#[trigger] self.enrichments@[k]).status@ == "failed"@,
            decreases self.enrichments.len() - j,
        {
            if crate::text::same(self.enrichments[j].status.as_str(), "failed") {
                failed = true;
            }
            j += 1;
        }
        let degraded = collector_degraded || failed;
        self.state = if self.benchmark.interrupted {
            RunState::Aborted
        } else {
            match self.benchmark.passed {
                Some(true) => if degraded {
                    RunState::Degraded
                } else {
                    RunState::Complete
                },
                _ => RunState::Failed,
            }
        };
    }

    /// The messages of one kind, in parser order.
    pub fn benchmark_messages(&self, kind: BenchmarkMessageKind) -> (r: Vec<&BenchmarkMessage>)
        ensures
            r@.map_values(|m: &BenchmarkMessage| *m) == messages_of_kind(
                all_messages(self.enrichments@),
                kind,
            ),
    {
        let mut out: Vec<&BenchmarkMessage> = Vec::new();
        let ghost keep = |m: BenchmarkMessage| m.kind == kind;
        let ghost flat = |m: &BenchmarkMessage| *m;
        let ghost mut seen: Seq<BenchmarkMessage> = Seq::empty();
        let mut i: usize = 0;
        proof {
            reveal(Seq::filter);
            assert(all_messages(self.enrichments@.take(0)) == seen);
            assert(out@.map_values(flat) == seen.filter(keep));
        }
        while i < self.enrichments.len()
            invariant
                i <= self.enrichments@.len(),
                keep == (|m: BenchmarkMessage| m.kind == kind),
                flat == (|m: &BenchmarkMessage| *m),
                seen == all_messages(self.enrichments@.take(i as int)),
                out@.map_values(flat) == seen.filter(keep),
            decreases self.enrichments.len() - i,
        {
            let messages = &self.enrichments[i].messages;
            let ghost start = seen;
            let mut j: usize = 0;
            assert(start + messages@.take(0) == start);
            while j < messages.len()
                invariant
                    j <= messages@.len(),
                    keep == (|m: BenchmarkMessage| m.kind == kind),
                    flat == (|m: &BenchmarkMessage| *m),
                    seen == start + messages@.take(j as int),
                    out@.map_values(flat) == seen.filter(keep),
                decreases messages.len() - j,
            {
                let message = &messages[j];
                let ghost was = out@;
                proof {
                    reveal(Seq::filter);
                    assert(start + messages@.take(j + 1) == seen.push(*message));
                    assert(seen.push(*message).drop_last() == seen);
                }
                if message.kind == kind {
                    out.push(message);
                    assert(out@.map_values(flat) == was.map_values(flat).push(*message));
                }
                proof {
                    seen = seen.push(*message);
                }
                j += 1;
            }
            proof {
                assert(messages@.take(j as int) == messages@);
                assert(self.enrichments@.take(i + 1).drop_last() == self.enrichments@.take(
                    i as int,
                ));
            }
            i += 1;
        }
        assert(self.enrichments@.take(i as int) == self.enrichments@);
        out
    }

    pub fn failure_reasons(&self) -> (r: Vec<String>)
        ensures
            texts(r@) == reasons(*self),
    {
        let mut out: Vec<String> = Vec::new();
        if self.benchmark.passed == Some(true) {
            assert(texts(out@) == Seq::<Seq<char>>::empty());
            return out;
        }
        let parsed = self.benchmark_messages(BenchmarkMessageKind::Failure);
        let ghost flat = |m: &BenchmarkMessage| *m;
        let ghost all = parsed@.map_values(flat);
        if parsed.len() > 0 {
            let mut i: usize = 0;
            assert(texts(out@) == message_texts(all).take(0));
            while i < parsed.len()
                invariant
                    i <= parsed@.len(),
                    flat == (|m: &BenchmarkMessage| *m),
                    all == parsed@.map_values(flat),
                    texts(out@) == message_texts(all).take(i as int),
                decreases parsed.len() - i,
            {
                let ghost was = out@;
                out.push(parsed[i].text.clone());
                assert(texts(out@) == texts(was).push(all[i as int].text@));
                assert(message_texts(all).take(i + 1) == message_texts(all).take(i as int).push(
                    all[i as int].text@,
                ));
                i += 1;
            }
            assert(message_texts(all).take(i as int) == message_texts(all));
            return out;
        }
        match &self.benchmark.error {
            Some(error) => {
                out.push(error.clone());
                assert(texts(out@) == seq![error@]);
            },
            None => {
                assert(texts(out@) == Seq::<Seq<char>>::empty());
            },
        }
        out
    }
}

/// A run is complete exactly if the benchmark passed without being interrupted and nothing that
/// observed it failed; a failed observation alone never makes a passed run fail.
pub proof fn state_follows_the_benchmark(passed: Option<bool>, interrupted: bool, failed: bool)
    ensures
        settled(passed, interrupted, failed) == RunState::Complete <==> (passed == Some(true)
            && !interrupted && !failed),
        settled(passed, interrupted, failed) == RunState::Degraded <==> (passed == Some(true)
            && !interrupted && failed),
        settled(passed, interrupted, failed) == RunState::Aborted <==> interrupted,
        settled(passed, interrupted, failed) != RunState::Running,
{
}

/// A run that passed has no failure reasons; one that did not has the error of its benchmark
/// wherever the parsers reported no failure.
pub proof fn every_failure_has_its_reason(manifest: RunManifest)
    ensures
        manifest.benchmark.passed == Some(true) ==> reasons(manifest).len() == 0,
        manifest.benchmark.passed != Some(true) && manifest.benchmark.error is Some ==> reasons(
            manifest,
        ).len() > 0,
{
}

} // verus!
