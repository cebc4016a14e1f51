//! A run from its request to its record: what is decided between the things that are done.
use crate::benchmark::{blank_result, BenchmarkExecution, BenchmarkView};
use crate::brief::{category_of, distinct_texts, same_category};
use crate::collector::CollectorOutput;
use crate::config::{push_text, CollectorConfig, CollectorPhase, LoadedConfig, Transport};
use crate::enrichment::{
    any_failed, enrich_outcome, EnrichOutcome, EnrichmentOutput, PARSER_LABEL,
};
use crate::join::{chain, value_views};
use crate::labels::{lookup, no_labels, Labels};
use crate::model::{
    add_metric, all_messages, message_texts, messages_of_kind, observation_failed, on_calendar,
    reasons, settled, AgentContext, AnalysisStatus, BenchmarkMessage, BenchmarkMessageKind,
    BenchmarkResult, CollectorResult, EnrichmentResult, Fingerprint, LogRef, Metric, MetricView,
    RunManifest, RunMode, RunState, SourceSnapshot, ToolingSnapshot, Transition,
};
use crate::moment::Moment;
use crate::number::{apply, arithmetic, is_arithmetic, Number, Op};
use crate::order::distinct_sorted;
use crate::protocol::picked;
use crate::report::text_option;
use crate::text::{
    blank, char_width, chars_of, decimal, decimal_of, glue2, glue3, glue5, is_blank, join, joined,
    same, signed_decimal, signed_decimal_of, starts, starts_with, string_of, texts, views, width,
};
use crate::transition::{elapsed, elapsed_ms};
use vstd::prelude::*;

verus! {

/// What came of a run.
#[derive(Clone, Debug)]
pub struct RunOutcome {
    pub id: String,
    pub passed: bool,
    pub state: RunState,
    pub score: Option<i64>,
}

/// What is said of a run when it is asked for.
#[derive(Clone, Debug, Default)]
pub struct RunAnnotations {
    pub hypothesis: String,
    pub note: Option<String>,
    pub tags: Vec<String>,
}

/// The last `n` bytes of a text, or all of a shorter one: none where they begin inside a character.
pub open spec fn last_bytes(s: Seq<char>, n: nat) -> Option<Seq<char>>
    decreases s.len(),
{
    if s.len() == 0 || n == 0 {
        Some(Seq::empty())
    } else if width(s.last()) > n {
        None
    } else {
        match last_bytes(s.drop_last(), (n - width(s.last())) as nat) {
            Some(head) => Some(head.push(s.last())),
            None => None,
        }
    }
}

/// The first `n` bytes of a text, or all of a shorter one: none where they end inside a character.
pub open spec fn first_bytes(s: Seq<char>, n: nat) -> Option<Seq<char>>
    decreases s.len(),
{
    if s.len() == 0 || n == 0 {
        Some(Seq::empty())
    } else if width(s[0]) > n {
        None
    } else {
        match first_bytes(s.skip(1), (n - width(s[0])) as nat) {
            Some(tail) => Some(seq![s[0]] + tail),
            None => None,
        }
    }
}

/// The bytes of an identifier that are shown.
pub const SHORT_ID: usize = 8;

/// The bytes of a commit that are shown.
pub const SHORT_COMMIT: usize = 12;

/// An identifier that can be shortened.
pub open spec fn has_short_id(id: Seq<char>) -> bool {
    last_bytes(id, 8) is Some
}

pub open spec fn short_of(id: Seq<char>) -> Seq<char> {
    last_bytes(id, 8)->0
}

/// The end of `s` from `at` on lies before what is still to be added.
proof fn last_bytes_step(s: Seq<char>, at: int, left: nat)
    requires
        0 < at <= s.len(),
        0 < left,
        width(s[at - 1]) <= left,
    ensures
        last_bytes(s.take(at), left) == (match last_bytes(
            s.take(at - 1),
            (left - width(s[at - 1])) as nat,
        ) {
            Some(head) => Some(head.push(s[at - 1])),
            None => None,
        }),
{
    assert(s.take(at).drop_last() == s.take(at - 1));
    assert(s.take(at).last() == s[at - 1]);
}

pub fn tail_of(id: &[char], n: usize) -> (r: Option<Vec<char>>)
    ensures
        crate::text::chars_option(r) == last_bytes(id@, n as nat),
{
    let mut at: usize = id.len();
    let mut left: usize = n;
    let ghost whole = last_bytes(id@, n as nat);
    assert(id@.take(at as int) == id@);
    assert(id@.skip(at as int) == Seq::<char>::empty());
    proof {
        if whole is Some {
            assert(whole->0 + Seq::<char>::empty() == whole->0);
        }
    }
    while at > 0 && left > 0
        invariant
            at <= id@.len(),
            whole == last_bytes(id@, n as nat),
            whole == (match last_bytes(id@.take(at as int), left as nat) {
                Some(head) => Some(head + id@.skip(at as int)),
                None => None,
            }),
        decreases at,
    {
        let c = id[at - 1];
        let w = char_width(c);
        if w > left {
            assert(id@.take(at as int).last() == c);
            return None;
        }
        proof {
            last_bytes_step(id@, at as int, left as nat);
            match last_bytes(id@.take(at - 1), (left - width(c)) as nat) {
                Some(head) => {
                    assert(head.push(c) + id@.skip(at as int) == head + id@.skip(at - 1));
                },
                None => {},
            }
        }
        at -= 1;
        left -= w;
    }
    let out = crate::text::slice_of(id, at, id.len());
    proof {
        assert(out@ == id@.skip(at as int));
        assert(Seq::<char>::empty() + out@ == out@);
        assert(at == 0 ==> id@.take(0).len() == 0);
    }
    Some(out)
}

/// Tells whether an identifier can be shortened.
pub fn can_shorten(id: &str) -> (r: bool)
    ensures
        r == has_short_id(id@),
{
    tail_of(chars_of(id).as_slice(), SHORT_ID).is_some()
}

/// The end of an identifier, which tells runs apart.
pub fn short_id(id: &str) -> (r: String)
    requires
        has_short_id(id@),
    ensures
        r@ == short_of(id@),
{
    match tail_of(chars_of(id).as_slice(), SHORT_ID) {
        Some(tail) => string_of(tail.as_slice()),
        None => String::new(),
    }
}

pub fn head_of(s: &[char], n: usize) -> (r: Option<Vec<char>>)
    ensures
        crate::text::chars_option(r) == first_bytes(s@, n as nat),
{
    let mut at: usize = 0;
    let mut left: usize = n;
    let ghost whole = first_bytes(s@, n as nat);
    assert(s@.skip(0) == s@);
    proof {
        if whole is Some {
            assert(s@.take(0) + whole->0 == whole->0);
        }
    }
    while at < s.len() && left > 0
        invariant
            at <= s@.len(),
            whole == first_bytes(s@, n as nat),
            whole == (match first_bytes(s@.skip(at as int), left as nat) {
                Some(tail) => Some(s@.take(at as int) + tail),
                None => None,
            }),
        decreases s.len() - at,
    {
        let c = s[at];
        let w = char_width(c);
        assert(s@.skip(at as int)[0] == c);
        if w > left {
            return None;
        }
        proof {
            assert(s@.skip(at as int).skip(1) == s@.skip(at + 1));
            match first_bytes(s@.skip(at + 1), (left - width(c)) as nat) {
                Some(tail) => {
                    assert(s@.take(at as int) + (seq![c] + tail) == s@.take(at + 1) + tail);
                },
                None => {},
            }
        }
        at += 1;
        left -= w;
    }
    let out = crate::text::slice_of(s, 0, at);
    assert(out@ == s@.take(at as int));
    assert(out@ + Seq::<char>::empty() == out@);
    Some(out)
}

/// Why a run is not started.
#[derive(Clone, Debug, PartialEq, Eq)]
pub enum RunRefusal {
    ScoreRun,
    NoHypothesis,
    /// Another process is about to start a run in the data directory.
    GateHeld,
    /// This run is still in progress.
    Active(String),
    /// This run awaits the analysis of this hypothesis.
    Pending(String, String),
}

pub open spec fn refusal_ids(refusal: RunRefusal) -> bool {
    match refusal {
        RunRefusal::Active(id) => has_short_id(id@),
        RunRefusal::Pending(id, _) => has_short_id(id@),
        _ => true,
    }
}

impl RunRefusal {
    pub open spec fn text(self) -> Seq<char> {
        match self {
            RunRefusal::ScoreRun =>
                "score-run is no longer supported; remove observation settings and use `isuscope run`"@,
            RunRefusal::NoHypothesis => "hypothesis must not be empty"@,
            RunRefusal::GateHeld =>
                "another isuscope run is still in progress in this data directory; wait for it to finish"@,
            RunRefusal::Active(id) => "run "@ + short_of(id@)
                + " is still in progress in another isuscope process; wait for it to finish"@,
            RunRefusal::Pending(id, hypothesis) => "run "@ + short_of(id@)
                + " is still awaiting analysis for hypothesis `"@ + hypothesis@
                + "`; run `isuscope analyze "@ + short_of(id@)
                + "` before starting another benchmark"@,
        }
    }

    pub fn message(&self) -> (r: String)
        requires
            refusal_ids(*self),
        ensures
            r@ == self.text(),
    {
        match self {
            RunRefusal::ScoreRun =>
                "score-run is no longer supported; remove observation settings and use `isuscope run`".to_owned(),
            RunRefusal::NoHypothesis => "hypothesis must not be empty".to_owned(),
            RunRefusal::GateHeld =>
                "another isuscope run is still in progress in this data directory; wait for it to finish".to_owned(),
            RunRefusal::Active(id) => glue3(
                "run ",
                short_id(id.as_str()).as_str(),
                " is still in progress in another isuscope process; wait for it to finish",
            ),
            RunRefusal::Pending(id, hypothesis) => {
                let short = short_id(id.as_str());
                let head = glue5(
                    "run ",
                    short.as_str(),
                    " is still awaiting analysis for hypothesis `",
                    hypothesis.as_str(),
                    "`; run `isuscope analyze ",
                );
                glue3(head.as_str(), short.as_str(), "` before starting another benchmark")
            },
        }
    }
}

/// A run that awaits its analysis.
#[derive(Clone, Debug)]
pub struct PendingRun {
    pub id: String,
    pub hypothesis: String,
}

/// Checks what is asked for, before anything is touched.
pub fn check_request(mode: RunMode, hypothesis: &str) -> (r: Result<(), RunRefusal>)
    ensures
        match r {
            Ok(_) => mode != RunMode::ScoreRun && !is_blank(hypothesis@),
            Err(RunRefusal::ScoreRun) => mode == RunMode::ScoreRun,
            Err(RunRefusal::NoHypothesis) => mode != RunMode::ScoreRun && is_blank(hypothesis@),
            Err(_) => false,
        },
{
    if mode == RunMode::ScoreRun {
        return Err(RunRefusal::ScoreRun);
    }
    if blank(hypothesis) {
        return Err(RunRefusal::NoHypothesis);
    }
    Ok(())
}

/// Checks that no other run is in the way: one that is about to start first, then the runs that are
/// still in progress, then those that await their analysis.
pub fn check_others(gate_held: bool, active: &Vec<String>, pending: &Vec<PendingRun>) -> (r: Result<
    (),
    RunRefusal,
>)
    ensures
        match r {
            Ok(_) => !gate_held && active@.len() == 0 && pending@.len() == 0,
            Err(RunRefusal::GateHeld) => gate_held,
            Err(RunRefusal::Active(id)) => !gate_held && active@.len() > 0 && id@ == active@[0]@,
            Err(RunRefusal::Pending(id, hypothesis)) => !gate_held && active@.len() == 0
                && pending@.len() > 0 && id@ == pending@[0].id@ && hypothesis@
                == pending@[0].hypothesis@,
            Err(_) => false,
        },
{
    if gate_held {
        return Err(RunRefusal::GateHeld);
    }
    if active.len() > 0 {
        return Err(RunRefusal::Active(active[0].clone()));
    }
    if pending.len() > 0 {
        return Err(
            RunRefusal::Pending(pending[0].id.clone(), pending[0].hypothesis.clone()),
        );
    }
    Ok(())
}

/// What is known of a run while it goes on.
#[derive(Debug)]
pub struct Progress {
    pub manifest: RunManifest,
    pub metrics: Vec<Metric>,
    pub fingerprints: Vec<Fingerprint>,
    pub transitions: Vec<Transition>,
}

/// A note that says something.
pub open spec fn written_note(note: Option<String>) -> Option<Seq<char>> {
    match note {
        Some(text) => if is_blank(text@) {
            None
        } else {
            Some(text@)
        },
        None => None,
    }
}

/// A run that has just begun.
pub open spec fn begun_run(
    mode: RunMode,
    id: Seq<char>,
    started_at: Moment,
    annotations: RunAnnotations,
    source: SourceSnapshot,
    tooling: ToolingSnapshot,
    agent_context: Option<AgentContext>,
    m: RunManifest,
) -> bool {
    &&& m.schema_version == 6
    &&& m.id@ == id
    &&& m.mode == mode
    &&& m.state == RunState::Running
    &&& m.started_at == started_at
    &&& m.finished_at is None
    &&& m.hypothesis == annotations.hypothesis
    &&& m.analysis_status == AnalysisStatus::Pending
    &&& m.analyses@.len() == 0
    &&& text_option(m.note) == written_note(annotations.note)
    &&& texts(m.tags@) == distinct_sorted::<String>(texts(annotations.tags@))
    &&& m.source == source
    &&& m.tooling == tooling
    &&& m.agent_context == agent_context
    &&& m.benchmark@ == blank_result(""@)
    &&& m.collectors@.len() == 0
    &&& m.enrichments@.len() == 0
    &&& m.logs@.len() == 0
    &&& m.metric_count == 0
    &&& m.fingerprint_count == 0
    &&& m.transition_count == 0
    &&& m.structured_snapshot is None
}

fn no_benchmark(mode: &str, interrupted: bool, passed: Option<bool>, error: Option<String>) -> (r:
    BenchmarkResult)
    ensures
        r@ == (BenchmarkView {
            interrupted,
            passed,
            error: text_option(error),
            ..blank_result(mode@)
        }),
{
    let r = BenchmarkResult {
        mode: mode.to_owned(),
        command: Vec::new(),
        exit_code: None,
        score: None,
        passed,
        interrupted,
        messages: Vec::new(),
        started_at: None,
        finished_at: None,
        initialize_started_at: None,
        initialize_finished_at: None,
        error,
        operator_lines_dropped: 0,
    };
    assert(r@.command == Seq::<Seq<char>>::empty());
    assert(r@.messages == Seq::<Seq<char>>::empty());
    r
}

/// Begins the record of a run.
pub fn begin_run(
    mode: RunMode,
    id: String,
    started_at: Moment,
    annotations: RunAnnotations,
    source: SourceSnapshot,
    tooling: ToolingSnapshot,
    agent_context: Option<AgentContext>,
) -> (r: Progress)
    ensures
        begun_run(
            mode,
            id@,
            started_at,
            annotations,
            source,
            tooling,
            agent_context,
            r.manifest,
        ),
        r.metrics@.len() == 0,
        r.fingerprints@.len() == 0,
        r.transitions@.len() == 0,
{
    let tags = distinct_texts(&annotations.tags);
    let note = match annotations.note {
        Some(text) => if blank(text.as_str()) {
            None
        } else {
            Some(text)
        },
        None => None,
    };
    let benchmark = no_benchmark("", false, None, None);
    let manifest = RunManifest {
        schema_version: 6,
        id,
        mode,
        state: RunState::Running,
        started_at,
        finished_at: None,
        hypothesis: annotations.hypothesis,
        analysis_status: AnalysisStatus::Pending,
        analyses: Vec::new(),
        note,
        tags,
        source,
        tooling,
        agent_context,
        benchmark,
        collectors: Vec::new(),
        enrichments: Vec::new(),
        logs: Vec::new(),
        metric_count: 0,
        fingerprint_count: 0,
        transition_count: 0,
        structured_snapshot: None,
    };
    Progress {
        manifest,
        metrics: Vec::new(),
        fingerprints: Vec::new(),
        transitions: Vec::new(),
    }
}

/// The line that tells of a collector.
pub open spec fn collector_line_of(result: CollectorResult) -> Seq<char> {
    (if result.status@ == "complete"@ {
        "✓"@
    } else if result.status@ == "unavailable"@ {
        "-"@
    } else {
        "!"@
    }) + " "@ + result.name@ + " ("@ + (match result.node {
        Some(node) => node@,
        None => "local"@,
    }) + ", "@ + result.status@ + ")"@
}

pub fn collector_line(result: &CollectorResult) -> (r: String)
    ensures
        r@ == collector_line_of(*result),
{
    let symbol = if same(result.status.as_str(), "complete") {
        "✓"
    } else if same(result.status.as_str(), "unavailable") {
        "-"
    } else {
        "!"
    };
    let node: &str = match &result.node {
        Some(node) => node.as_str(),
        None => "local",
    };
    let head = glue5(symbol, " ", result.name.as_str(), " (", node);
    let tail = glue3(head.as_str(), ", ", result.status.as_str());
    glue2(tail.as_str(), ")")
}

/// The line that tells of a benchmark parser.
pub open spec fn parser_line_of(result: EnrichmentResult, metrics: nat) -> Seq<char> {
    (if result.status@ == "complete"@ {
        "✓"@
    } else {
        "!"@
    }) + " "@ + result.name@ + " ("@ + result.status@ + ", "@ + decimal(metrics) + " metrics)"@
}

pub fn parser_line(result: &EnrichmentResult, metrics: usize) -> (r: String)
    ensures
        r@ == parser_line_of(*result, metrics as nat),
{
    let symbol = if same(result.status.as_str(), "complete") {
        "✓"
    } else {
        "!"
    };
    let count = string_of(decimal_of(metrics as u64).as_slice());
    let head = glue5(symbol, " ", result.name.as_str(), " (", result.status.as_str());
    let tail = glue3(head.as_str(), ", ", count.as_str());
    glue2(tail.as_str(), " metrics)")
}

pub open spec fn results_of(outputs: Seq<CollectorOutput>) -> Seq<CollectorResult> {
    outputs.map_values(|o: CollectorOutput| o.result)
}

pub open spec fn logs_of_each(outputs: Seq<CollectorOutput>) -> Seq<LogRef> {
    chain(outputs.map_values(|o: CollectorOutput| o.logs@))
}

pub open spec fn metrics_of_each(outputs: Seq<CollectorOutput>) -> Seq<Metric> {
    chain(outputs.map_values(|o: CollectorOutput| o.metrics@))
}

pub open spec fn fingerprints_of_each(outputs: Seq<CollectorOutput>) -> Seq<Fingerprint> {
    chain(outputs.map_values(|o: CollectorOutput| o.fingerprints@))
}

pub open spec fn transitions_of_each(outputs: Seq<CollectorOutput>) -> Seq<Transition> {
    chain(outputs.map_values(|o: CollectorOutput| o.transitions@))
}

pub open spec fn collector_lines(outputs: Seq<CollectorOutput>) -> Seq<Seq<char>> {
    outputs.map_values(|o: CollectorOutput| collector_line_of(o.result))
}

/// Everything that the collectors gave has come to what was known before.
pub open spec fn absorbed(before: Progress, outputs: Seq<CollectorOutput>, after: Progress) -> bool {
    &&& after.manifest.collectors@ == before.manifest.collectors@ + results_of(outputs)
    &&& after.manifest.logs@ == before.manifest.logs@ + logs_of_each(outputs)
    &&& after.manifest == (RunManifest {
        collectors: after.manifest.collectors,
        logs: after.manifest.logs,
        ..before.manifest
    })
    &&& after.metrics@ == before.metrics@ + metrics_of_each(outputs)
    &&& after.fingerprints@ == before.fingerprints@ + fingerprints_of_each(outputs)
    &&& after.transitions@ == before.transitions@ + transitions_of_each(outputs)
}

pub open spec fn parser_results(outputs: Seq<EnrichmentOutput>) -> Seq<EnrichmentResult> {
    outputs.map_values(|o: EnrichmentOutput| o.result)
}

pub open spec fn parser_logs_of_each(outputs: Seq<EnrichmentOutput>) -> Seq<LogRef> {
    chain(outputs.map_values(|o: EnrichmentOutput| o.logs@))
}

pub open spec fn parser_metrics_of_each(outputs: Seq<EnrichmentOutput>) -> Seq<Metric> {
    chain(outputs.map_values(|o: EnrichmentOutput| o.metrics@))
}

pub open spec fn parser_lines(outputs: Seq<EnrichmentOutput>) -> Seq<Seq<char>> {
    outputs.map_values(|o: EnrichmentOutput| parser_line_of(o.result, o.metrics@.len()))
}

/// Everything that the parsers gave has come to what was known before.
pub open spec fn enriched(before: Progress, outputs: Seq<EnrichmentOutput>, after: Progress) -> bool {
    &&& after.manifest.enrichments@ == before.manifest.enrichments@ + parser_results(outputs)
    &&& after.manifest.logs@ == before.manifest.logs@ + parser_logs_of_each(outputs)
    &&& after.manifest == (RunManifest {
        enrichments: after.manifest.enrichments,
        logs: after.manifest.logs,
        ..before.manifest
    })
    &&& after.metrics@ == before.metrics@ + parser_metrics_of_each(outputs)
    &&& after.fingerprints@ == before.fingerprints@
    &&& after.transitions@ == before.transitions@
}

/// A chain with one more part.
proof fn chain_grows<T, U>(items: Seq<T>, part: spec_fn(T) -> Seq<U>, i: int, start: Seq<U>)
    requires
        0 <= i < items.len(),
    ensures
        start + chain(items.take(i + 1).map_values(part)) == (start + chain(
            items.take(i).map_values(part),
        )) + part(items[i]),
{
    let more = items.take(i + 1).map_values(part);
    assert(more.drop_last() == items.take(i).map_values(part));
    assert(more.last() == part(items[i]));
    assert(start + (chain(items.take(i).map_values(part)) + part(items[i])) == (start + chain(
        items.take(i).map_values(part),
    )) + part(items[i]));
}

proof fn chain_starts<T, U>(items: Seq<T>, part: spec_fn(T) -> Seq<U>, start: Seq<U>)
    ensures
        start + chain(items.take(0).map_values(part)) == start,
{
    assert(items.take(0).map_values(part).len() == 0);
    assert(start + Seq::<U>::empty() == start);
}

impl Progress {
    /// Takes in what the collectors gave, and returns the lines that tell of them.
    pub fn absorb(&mut self, outputs: Vec<CollectorOutput>) -> (lines: Vec<String>)
        ensures
            absorbed(*old(self), outputs@, *final(self)),
            texts(lines@) == collector_lines(outputs@),
    {
        let ghost all = outputs@;
        let ghost before = *self;
        let mut lines: Vec<String> = Vec::new();
        proof {
            chain_starts(all, |o: CollectorOutput| o.logs@, before.manifest.logs@);
            chain_starts(all, |o: CollectorOutput| o.metrics@, before.metrics@);
            chain_starts(all, |o: CollectorOutput| o.fingerprints@, before.fingerprints@);
            chain_starts(all, |o: CollectorOutput| o.transitions@, before.transitions@);
            assert(before.manifest.collectors@ + results_of(all.take(0))
                == before.manifest.collectors@);
            assert(texts(lines@) == collector_lines(all.take(0)));
        }
        for output in it: outputs
            invariant
                it.seq() == all,
                absorbed(before, all.take(it.index() as int), *self),
                texts(lines@) == collector_lines(all.take(it.index() as int)),
        {
            let ghost i = it.index() as int;
            let ghost head = all.take(i);
            let ghost next = all.take(i + 1);
            let ghost this = output;
            proof {
                assert(all[i] == output);
                chain_grows(all, |o: CollectorOutput| o.logs@, i, before.manifest.logs@);
                chain_grows(all, |o: CollectorOutput| o.metrics@, i, before.metrics@);
                chain_grows(all, |o: CollectorOutput| o.fingerprints@, i, before.fingerprints@);
                chain_grows(all, |o: CollectorOutput| o.transitions@, i, before.transitions@);
                assert(before.manifest.collectors@ + results_of(next)
                    == (before.manifest.collectors@ + results_of(head)).push(output.result));
                assert(collector_lines(next) == collector_lines(head).push(
                    collector_line_of(output.result),
                ));
            }
            let line = collector_line(&output.result);
            push_text(&mut lines, line.as_str());
            let mut given = output;
            self.manifest.collectors.push(given.result);
            self.manifest.logs.append(&mut given.logs);
            self.metrics.append(&mut given.metrics);
            self.fingerprints.append(&mut given.fingerprints);
            self.transitions.append(&mut given.transitions);
        }
        assert(all.take(all.len() as int) == all);
        lines
    }

    /// Takes in what the benchmark parsers gave, and returns the lines that tell of them.
    pub fn absorb_enrichments(&mut self, outputs: Vec<EnrichmentOutput>) -> (lines: Vec<String>)
        ensures
            enriched(*old(self), outputs@, *final(self)),
            texts(lines@) == parser_lines(outputs@),
    {
        let ghost all = outputs@;
        let ghost before = *self;
        let mut lines: Vec<String> = Vec::new();
        proof {
            chain_starts(all, |o: EnrichmentOutput| o.logs@, before.manifest.logs@);
            chain_starts(all, |o: EnrichmentOutput| o.metrics@, before.metrics@);
            assert(before.manifest.enrichments@ + parser_results(all.take(0))
                == before.manifest.enrichments@);
            assert(texts(lines@) == parser_lines(all.take(0)));
        }
        for output in it: outputs
            invariant
                it.seq() == all,
                enriched(before, all.take(it.index() as int), *self),
                texts(lines@) == parser_lines(all.take(it.index() as int)),
        {
            let ghost i = it.index() as int;
            let ghost head = all.take(i);
            let ghost next = all.take(i + 1);
            proof {
                assert(all[i] == output);
                chain_grows(all, |o: EnrichmentOutput| o.logs@, i, before.manifest.logs@);
                chain_grows(all, |o: EnrichmentOutput| o.metrics@, i, before.metrics@);
                assert(before.manifest.enrichments@ + parser_results(next)
                    == (before.manifest.enrichments@ + parser_results(head)).push(output.result));
                assert(parser_lines(next) == parser_lines(head).push(
                    parser_line_of(output.result, output.metrics@.len()),
                ));
            }
            let line = parser_line(&output.result, output.metrics.len());
            push_text(&mut lines, line.as_str());
            let mut given = output;
            self.manifest.enrichments.push(given.result);
            self.manifest.logs.append(&mut given.logs);
            self.metrics.append(&mut given.metrics);
        }
        assert(all.take(all.len() as int) == all);
        lines
    }

    /// Takes in what the benchmark gave.
    pub fn absorb_benchmark(&mut self, execution: BenchmarkExecution)
        ensures
            final(self).manifest.benchmark == execution.result,
            final(self).manifest.logs@ == old(self).manifest.logs@ + execution.logs@,
            final(self).metrics@ == old(self).metrics@ + execution.metrics@,
            final(self).manifest == (RunManifest {
                benchmark: execution.result,
                logs: final(self).manifest.logs,
                ..old(self).manifest
            }),
            final(self).fingerprints@ == old(self).fingerprints@,
            final(self).transitions@ == old(self).transitions@,
    {
        let mut given = execution;
        self.manifest.benchmark = given.result;
        self.manifest.logs.append(&mut given.logs);
        self.metrics.append(&mut given.metrics);
    }
}

/// A metric that a benchmark parser gave; those that the benchmark printed itself are no parser's.
pub open spec fn from_parser() -> spec_fn(Metric) -> bool {
    |m: Metric|
        match lookup(m.labels@, PARSER_LABEL@) {
            Some(parser) => parser != "inline"@,
            None => false,
        }
}

pub open spec fn not_from_parser() -> spec_fn(Metric) -> bool {
    |m: Metric| !from_parser()(m)
}

/// A log of a benchmark parser.
pub open spec fn parser_log() -> spec_fn(LogRef) -> bool {
    |log: LogRef| starts(log.kind@, "benchmark-parser:"@)
}

pub open spec fn no_parser_log() -> spec_fn(LogRef) -> bool {
    |log: LogRef| !parser_log()(log)
}

fn drop_parser_metrics(metrics: Vec<Metric>) -> (out: Vec<Metric>)
    ensures
        out@ == metrics@.filter(not_from_parser()),
{
    let ghost all = metrics@;
    let mut out: Vec<Metric> = Vec::new();
    proof {
        reveal(Seq::filter);
        assert(all.take(0) == Seq::<Metric>::empty());
    }
    for metric in it: metrics
        invariant
            it.seq() == all,
            out@ == all.take(it.index() as int).filter(not_from_parser()),
    {
        let ghost i = it.index() as int;
        proof {
            reveal(Seq::filter);
            assert(all.take(i + 1).drop_last() == all.take(i));
            assert(all.take(i + 1).last() == metric);
        }
        let found = match metric.labels.get(PARSER_LABEL) {
            Some(parser) => !same(parser.as_str(), "inline"),
            None => false,
        };
        if !found {
            out.push(metric);
        }
    }
    assert(all.take(all.len() as int) == all);
    out
}

fn drop_parser_logs(logs: Vec<LogRef>) -> (out: Vec<LogRef>)
    ensures
        out@ == logs@.filter(no_parser_log()),
{
    let ghost all = logs@;
    let mut out: Vec<LogRef> = Vec::new();
    proof {
        reveal(Seq::filter);
        assert(all.take(0) == Seq::<LogRef>::empty());
    }
    for log in it: logs
        invariant
            it.seq() == all,
            out@ == all.take(it.index() as int).filter(no_parser_log()),
    {
        let ghost i = it.index() as int;
        proof {
            reveal(Seq::filter);
            assert(all.take(i + 1).drop_last() == all.take(i));
            assert(all.take(i + 1).last() == log);
        }
        let kind = chars_of(log.kind.as_str());
        if !starts_with(kind.as_slice(), chars_of("benchmark-parser:").as_slice()) {
            out.push(log);
        }
    }
    assert(all.take(all.len() as int) == all);
    out
}

/// A result with the place of the tooling that it was made with.
pub open spec fn made_with(before: EnrichmentResult, tooling: Seq<char>, after: EnrichmentResult) -> bool {
    &&& text_option(after.tooling_path) == Some(tooling)
    &&& after == (EnrichmentResult { tooling_path: after.tooling_path, ..before })
}

/// What the parsers gave before has made way for what they give now. A run that was given up
/// stays so.
pub open spec fn replaced_enrichments(
    before: Progress,
    outputs: Seq<EnrichmentOutput>,
    tooling: Seq<char>,
    after: Progress,
) -> bool {
    &&& after.metrics@ == before.metrics@.filter(not_from_parser()) + parser_metrics_of_each(
        outputs,
    )
    &&& after.manifest.logs@ == before.manifest.logs@.filter(no_parser_log()) + parser_logs_of_each(
        outputs,
    )
    &&& after.manifest.enrichments@.len() == outputs.len()
    &&& forall|i: int|
        0 <= i < outputs.len() ==> made_with(
            outputs[i].result,
            tooling,
            #[trigger] after.manifest.enrichments@[i],
        )
    &&& after.manifest == (RunManifest {
        logs: after.manifest.logs,
        enrichments: after.manifest.enrichments,
        metric_count: after.metrics@.len() as usize,
        state: if before.manifest.state == RunState::Aborted {
            RunState::Aborted
        } else {
            settled(
                before.manifest.benchmark.passed,
                before.manifest.benchmark.interrupted,
                observation_failed(before.manifest.collectors@, after.manifest.enrichments@),
            )
        },
        ..before.manifest
    })
    &&& after.fingerprints@ == before.fingerprints@
    &&& after.transitions@ == before.transitions@
}

impl Progress {
    /// Takes in what the parsers give when they are applied to a saved run again.
    pub fn replace_enrichments(&mut self, outputs: Vec<EnrichmentOutput>, tooling: &str) -> (outcome:
        EnrichOutcome)
        ensures
            replaced_enrichments(*old(self), outputs@, tooling@, *final(self)),
            outcome.run_id@ == old(self).manifest.id@,
            outcome.parser_count == outputs@.len(),
            outcome.metric_count == final(self).metrics@.len(),
            outcome.failed == any_failed(outputs@),
    {
        let ghost all = outputs@;
        let ghost before = *self;
        let mut metrics: Vec<Metric> = Vec::new();
        metrics.append(&mut self.metrics);
        let mut metrics = drop_parser_metrics(metrics);
        let mut logs: Vec<LogRef> = Vec::new();
        logs.append(&mut self.manifest.logs);
        let mut logs = drop_parser_logs(logs);
        let outcome = enrich_outcome(self.manifest.id.as_str(), &outputs, 0);
        let mut results: Vec<EnrichmentResult> = Vec::new();
        let ghost kept_metrics = metrics@;
        let ghost kept_logs = logs@;
        proof {
            chain_starts(all, |o: EnrichmentOutput| o.logs@, kept_logs);
            chain_starts(all, |o: EnrichmentOutput| o.metrics@, kept_metrics);
        }
        for output in it: outputs
            invariant
                it.seq() == all,
                metrics@ == kept_metrics + parser_metrics_of_each(all.take(it.index() as int)),
                logs@ == kept_logs + parser_logs_of_each(all.take(it.index() as int)),
                results@.len() == it.index(),
                forall|j: int|
                    0 <= j < results@.len() ==> made_with(
                        all[j].result,
                        tooling@,
                        #[trigger] results@[j],
                    ),
        {
            let ghost i = it.index() as int;
            proof {
                assert(all[i] == output);
                chain_grows(all, |o: EnrichmentOutput| o.logs@, i, kept_logs);
                chain_grows(all, |o: EnrichmentOutput| o.metrics@, i, kept_metrics);
            }
            let mut given = output;
            given.result.tooling_path = Some(tooling.to_owned());
            results.push(given.result);
            logs.append(&mut given.logs);
            metrics.append(&mut given.metrics);
        }
        assert(all.take(all.len() as int) == all);
        let count = metrics.len();
        self.metrics = metrics;
        self.manifest.logs = logs;
        self.manifest.enrichments = results;
        self.manifest.metric_count = count;
        if self.manifest.state != RunState::Aborted {
            self.manifest.settle_state();
        }
        EnrichOutcome { metric_count: count, ..outcome }
    }
}

proof fn filter_drops_all<T>(items: Seq<T>, p: spec_fn(T) -> bool)
    requires
        forall|i: int| 0 <= i < items.len() ==> !p(#[trigger] items[i]),
    ensures
        items.filter(p) == Seq::<T>::empty(),
    decreases items.len(),
{
    reveal(Seq::filter);
    if items.len() > 0 {
        filter_drops_all(items.drop_last(), p);
    }
}

proof fn filter_keeps_all<T>(items: Seq<T>, p: spec_fn(T) -> bool)
    requires
        forall|i: int| 0 <= i < items.len() ==> p(#[trigger] items[i]),
    ensures
        items.filter(p) == items,
    decreases items.len(),
{
    reveal(Seq::filter);
    if items.len() > 0 {
        filter_keeps_all(items.drop_last(), p);
        assert(items.drop_last().push(items.last()) == items);
    }
}

proof fn chain_is_dropped<T, U>(items: Seq<T>, part: spec_fn(T) -> Seq<U>, p: spec_fn(U) -> bool)
    requires
        forall|i: int, j: int|
            0 <= i < items.len() && 0 <= j < part(items[i]).len() ==> !p(
                #[trigger] part(items[i])[j],
            ),
    ensures
        chain(items.map_values(part)).filter(p) == Seq::<U>::empty(),
    decreases items.len(),
{
    let parts = items.map_values(part);
    if items.len() > 0 {
        let head = items.drop_last();
        assert forall|i: int, j: int|
            0 <= i < head.len() && 0 <= j < part(head[i]).len() implies !p(
            #[trigger] part(head[i])[j],
        ) by {
            assert(head[i] == items[i]);
        }
        chain_is_dropped(head, part, p);
        assert(parts.drop_last() == head.map_values(part));
        assert(parts.last() == part(items.last()));
        let last = items.len() - 1;
        assert forall|j: int| 0 <= j < parts.last().len() implies !p(#[trigger] parts.last()[j]) by {
            assert(part(items[last])[j] == parts.last()[j]);
        }
        filter_drops_all(parts.last(), p);
        Seq::filter_distributes_over_add(chain(parts.drop_last()), parts.last(), p);
    } else {
        reveal(Seq::filter);
    }
}

/// Applying the parsers again leaves nothing of what they gave before, and everything that did
/// not come from them: a saved run can be parsed as often as one likes.
pub proof fn parsing_again_keeps_the_rest(
    before: Progress,
    first: Seq<EnrichmentOutput>,
    tooling: Seq<char>,
    between: Progress,
    second: Seq<EnrichmentOutput>,
    later_tooling: Seq<char>,
    after: Progress,
)
    requires
        replaced_enrichments(before, first, tooling, between),
        replaced_enrichments(between, second, later_tooling, after),
        forall|i: int, j: int|
            0 <= i < first.len() && 0 <= j < first[i].metrics@.len() ==> from_parser()(
                #[trigger] first[i].metrics@[j],
            ),
        forall|i: int, j: int|
            0 <= i < first.len() && 0 <= j < first[i].logs@.len() ==> parser_log()(
                #[trigger] first[i].logs@[j],
            ),
    ensures
        after.metrics@ == before.metrics@.filter(not_from_parser()) + parser_metrics_of_each(second),
        after.manifest.logs@ == before.manifest.logs@.filter(no_parser_log())
            + parser_logs_of_each(second),
        after.fingerprints@ == before.fingerprints@,
        after.transitions@ == before.transitions@,
{
    let kept = before.metrics@.filter(not_from_parser());
    let kept_logs = before.manifest.logs@.filter(no_parser_log());
    assert forall|i: int| 0 <= i < kept.len() implies not_from_parser()(#[trigger] kept[i]) by {
        before.metrics@.lemma_filter_pred(not_from_parser(), i);
    }
    assert forall|i: int| 0 <= i < kept_logs.len() implies no_parser_log()(
        #[trigger] kept_logs[i],
    ) by {
        before.manifest.logs@.lemma_filter_pred(no_parser_log(), i);
    }
    filter_keeps_all(kept, not_from_parser());
    filter_keeps_all(kept_logs, no_parser_log());
    let metrics = |o: EnrichmentOutput| o.metrics@;
    let logs = |o: EnrichmentOutput| o.logs@;
    assert forall|i: int, j: int|
        0 <= i < first.len() && 0 <= j < metrics(first[i]).len() implies !not_from_parser()(
        #[trigger] metrics(first[i])[j],
    ) by {
        assert(from_parser()(first[i].metrics@[j]));
    }
    assert forall|i: int, j: int|
        0 <= i < first.len() && 0 <= j < logs(first[i]).len() implies !no_parser_log()(
        #[trigger] logs(first[i])[j],
    ) by {
        assert(parser_log()(first[i].logs@[j]));
    }
    chain_is_dropped(first, metrics, not_from_parser());
    chain_is_dropped(first, logs, no_parser_log());
    Seq::filter_distributes_over_add(kept, parser_metrics_of_each(first), not_from_parser());
    Seq::filter_distributes_over_add(kept_logs, parser_logs_of_each(first), no_parser_log());
    assert(kept + Seq::<Metric>::empty() == kept);
    assert(kept_logs + Seq::<LogRef>::empty() == kept_logs);
}

/// A collector that must not fail before the benchmark.
pub open spec fn is_required(collectors: Seq<CollectorConfig>, name: Seq<char>) -> bool {
    exists|i: int|
        0 <= i < collectors.len() && (#[trigger] collectors[i]).phase == CollectorPhase::Before
            && collectors[i].name@ == name && collectors[i].required
}

/// Some collector that must not fail failed.
pub open spec fn required_failed(
    collectors: Seq<CollectorConfig>,
    outputs: Seq<CollectorOutput>,
) -> bool {
    exists|i: int|
        0 <= i < outputs.len() && (#[trigger] outputs[i]).result.status@ == "failed"@
            && is_required(collectors, outputs[i].result.name@)
}

fn must_not_fail(collectors: &Vec<CollectorConfig>, name: &str) -> (r: bool)
    ensures
        r == is_required(collectors@, name@),
{
    let mut i: usize = 0;
    while i < collectors.len()
        invariant
            i <= collectors@.len(),
            forall|j: int|
                0 <= j < i ==> !((#[trigger] collectors@[j]).phase == CollectorPhase::Before
                    && collectors@[j].name@ == name@ && collectors@[j].required),
        decreases collectors.len() - i,
    {
        let c = &collectors[i];
        if c.phase == CollectorPhase::Before && same(c.name.as_str(), name) && c.required {
            return true;
        }
        i += 1;
    }
    false
}

fn has_required_failure(collectors: &Vec<CollectorConfig>, outputs: &Vec<CollectorOutput>) -> (r:
    bool)
    ensures
        r == required_failed(collectors@, outputs@),
{
    let mut i: usize = 0;
    while i < outputs.len()
        invariant
            i <= outputs@.len(),
            forall|j: int|
                0 <= j < i ==> !((#[trigger] outputs@[j]).result.status@ == "failed"@
                    && is_required(collectors@, outputs@[j].result.name@)),
        decreases outputs.len() - i,
    {
        if same(outputs[i].result.status.as_str(), "failed") && must_not_fail(
            collectors,
            outputs[i].result.name.as_str(),
        ) {
            return true;
        }
        i += 1;
    }
    false
}

/// A collector that works over SSH before the benchmark.
pub open spec fn is_ssh_before(collectors: Seq<CollectorConfig>, name: Seq<char>) -> bool {
    exists|i: int|
        0 <= i < collectors.len() && (#[trigger] collectors[i]).phase == CollectorPhase::Before
            && collectors[i].transport == Transport::Ssh && collectors[i].name@ == name
}

/// The connection itself failed: `ssh` exits with this code then.
pub open spec fn connection_failed(result: CollectorResult) -> bool {
    result.status@ == "failed"@ && result.exit_code == Some(255i32)
}

/// The node of a collector that works over SSH.
pub open spec fn ssh_node(collectors: Seq<CollectorConfig>) -> spec_fn(CollectorOutput) -> Option<
    Seq<char>,
> {
    |o: CollectorOutput|
        if is_ssh_before(collectors, o.result.name@) {
            text_option(o.result.node)
        } else {
            None
        }
}

/// Every collector of the node failed to connect.
pub open spec fn never_connected(
    collectors: Seq<CollectorConfig>,
    outputs: Seq<CollectorOutput>,
) -> spec_fn(Seq<char>) -> bool {
    |node: Seq<char>|
        forall|i: int|
            0 <= i < outputs.len() && ssh_node(collectors)(#[trigger] outputs[i]) == Some(node)
                ==> connection_failed(outputs[i].result)
}

/// The nodes, in their order, that no collector could connect to. A benchmark would run without any
/// observation of them.
pub open spec fn unreachable_nodes(
    collectors: Seq<CollectorConfig>,
    outputs: Seq<CollectorOutput>,
) -> Seq<Seq<char>> {
    distinct_sorted::<String>(picked(outputs, ssh_node(collectors))).filter(
        never_connected(collectors, outputs),
    )
}

fn works_over_ssh(collectors: &Vec<CollectorConfig>, name: &str) -> (r: bool)
    ensures
        r == is_ssh_before(collectors@, name@),
{
    let mut i: usize = 0;
    while i < collectors.len()
        invariant
            i <= collectors@.len(),
            forall|j: int|
                0 <= j < i ==> !((#[trigger] collectors@[j]).phase == CollectorPhase::Before
                    && collectors@[j].transport == Transport::Ssh && collectors@[j].name@
                    == name@),
        decreases collectors.len() - i,
    {
        let c = &collectors[i];
        if c.phase == CollectorPhase::Before && c.transport == Transport::Ssh && same(
            c.name.as_str(),
            name,
        ) {
            return true;
        }
        i += 1;
    }
    false
}

fn node_over_ssh(collectors: &Vec<CollectorConfig>, output: &CollectorOutput) -> (r: Option<String>)
    ensures
        text_option(r) == ssh_node(collectors@)(*output),
{
    if works_over_ssh(collectors, output.result.name.as_str()) {
        match &output.result.node {
            Some(node) => Some(node.clone()),
            None => None,
        }
    } else {
        None
    }
}

fn no_connection(
    collectors: &Vec<CollectorConfig>,
    outputs: &Vec<CollectorOutput>,
    node: &str,
) -> (r: bool)
    ensures
        r == never_connected(collectors@, outputs@)(node@),
{
    let mut i: usize = 0;
    while i < outputs.len()
        invariant
            i <= outputs@.len(),
            forall|j: int|
                0 <= j < i && ssh_node(collectors@)(#[trigger] outputs@[j]) == Some(node@)
                    ==> connection_failed(outputs@[j].result),
        decreases outputs.len() - i,
    {
        let output = &outputs[i];
        let here = match node_over_ssh(collectors, output) {
            Some(found) => same(found.as_str(), node),
            None => false,
        };
        if here {
            let lost = match output.result.exit_code {
                Some(code) => code == 255,
                None => false,
            };
            if !lost || !same(output.result.status.as_str(), "failed") {
                assert(ssh_node(collectors@)(outputs@[i as int]) == Some(node@));
                return false;
            }
        }
        i += 1;
    }
    true
}

fn nodes_over_ssh(collectors: &Vec<CollectorConfig>, outputs: &Vec<CollectorOutput>) -> (r: Vec<
    String,
>)
    ensures
        texts(r@) == picked(outputs@, ssh_node(collectors@)),
{
    let mut nodes: Vec<String> = Vec::new();
    let mut i: usize = 0;
    assert(outputs@.take(0) == Seq::<CollectorOutput>::empty());
    assert(texts(nodes@) == picked(outputs@.take(0), ssh_node(collectors@)));
    while i < outputs.len()
        invariant
            i <= outputs@.len(),
            texts(nodes@) == picked(outputs@.take(i as int), ssh_node(collectors@)),
        decreases outputs.len() - i,
    {
        assert(outputs@.take(i + 1).drop_last() == outputs@.take(i as int));
        assert(outputs@.take(i + 1).last() == outputs@[i as int]);
        match node_over_ssh(collectors, &outputs[i]) {
            Some(node) => {
                push_text(&mut nodes, node.as_str());
            },
            None => {},
        }
        i += 1;
    }
    assert(outputs@.take(i as int) == outputs@);
    nodes
}

/// The nodes that no collector could connect to.
pub fn unreachable_ssh_nodes(config: &LoadedConfig, outputs: &Vec<CollectorOutput>) -> (r: Vec<
    String,
>)
    ensures
        texts(r@) == unreachable_nodes(config.config.collectors@, outputs@),
{
    let collectors = &config.config.collectors;
    let nodes = nodes_over_ssh(collectors, outputs);
    let names = distinct_texts(&nodes);
    let ghost all = texts(names@);
    let ghost lost = never_connected(collectors@, outputs@);
    let mut out: Vec<String> = Vec::new();
    let mut i: usize = 0;
    proof {
        reveal(Seq::filter);
        assert(all.take(0) == Seq::<Seq<char>>::empty());
        assert(texts(out@) == all.take(0).filter(lost));
    }
    while i < names.len()
        invariant
            i <= names@.len(),
            all == texts(names@),
            lost == never_connected(collectors@, outputs@),
            texts(out@) == all.take(i as int).filter(lost),
        decreases names.len() - i,
    {
        proof {
            reveal(Seq::filter);
            assert(all[i as int] == names@[i as int]@);
            assert(all.take(i + 1).drop_last() == all.take(i as int));
            assert(all.take(i + 1).last() == all[i as int]);
        }
        if no_connection(collectors, outputs, names[i].as_str()) {
            push_text(&mut out, names[i].as_str());
        }
        i += 1;
    }
    assert(all.take(i as int) == all);
    out
}

/// What is done after the collectors that work before the benchmark.
#[derive(Debug)]
pub enum Decision {
    Benchmark,
    /// The benchmark is not started, and its result is this.
    Skip(BenchmarkResult),
    /// The benchmark is not started, its result is this, and the error is shown.
    Refuse(BenchmarkResult, String),
}

/// The result of a benchmark that was not started.
pub open spec fn not_started(interrupted: bool, error: Seq<char>) -> BenchmarkView {
    BenchmarkView {
        passed: Some(false),
        interrupted,
        error: Some(error),
        ..blank_result("not-started"@)
    }
}

pub open spec fn unreachable_error(nodes: Seq<Seq<char>>) -> Seq<char> {
    "SSH failed for every before collector on "@ + join(nodes, ", "@)
        + "; fix SSH (host keys, identity, reachability) before benchmarking"@
}

/// The benchmark is started unless the run was interrupted, a required collector failed or a node
/// cannot be reached.
pub open spec fn decided(
    collectors: Seq<CollectorConfig>,
    outputs: Seq<CollectorOutput>,
    cancelled: bool,
    decision: Decision,
) -> bool {
    let lost = unreachable_nodes(collectors, outputs);
    if cancelled {
        decision matches Decision::Skip(result) && result@ == not_started(
            true,
            "interrupted by signal"@,
        )
    } else if required_failed(collectors, outputs) {
        decision matches Decision::Skip(result) && result@ == not_started(
            false,
            "a required before collector failed"@,
        )
    } else if lost.len() > 0 {
        decision matches Decision::Refuse(result, error) && error@ == unreachable_error(lost)
            && result@ == not_started(false, unreachable_error(lost))
    } else {
        decision is Benchmark
    }
}

pub fn joined_texts(items: &Vec<String>, sep: &str) -> (r: String)
    ensures
        r@ == join(texts(items@), sep@),
{
    let mut parts: Vec<Vec<char>> = Vec::new();
    let mut i: usize = 0;
    assert(views(parts@) == texts(items@).take(0));
    while i < items.len()
        invariant
            i <= items@.len(),
            views(parts@) == texts(items@).take(i as int),
        decreases items.len() - i,
    {
        let ghost was = parts@;
        parts.push(chars_of(items[i].as_str()));
        assert(views(parts@) == views(was).push(items@[i as int]@));
        assert(texts(items@).take(i + 1) == texts(items@).take(i as int).push(items@[i as int]@));
        i += 1;
    }
    assert(texts(items@).take(i as int) == texts(items@));
    string_of(joined(parts.as_slice(), chars_of(sep).as_slice()).as_slice())
}

/// Decides whether the benchmark is started.
pub fn decide(config: &LoadedConfig, before: &Vec<CollectorOutput>, cancelled: bool) -> (r: Decision)
    ensures
        decided(config.config.collectors@, before@, cancelled, r),
{
    if cancelled {
        return Decision::Skip(
            no_benchmark(
                "not-started",
                true,
                Some(false),
                Some("interrupted by signal".to_owned()),
            ),
        );
    }
    if has_required_failure(&config.config.collectors, before) {
        return Decision::Skip(
            no_benchmark(
                "not-started",
                false,
                Some(false),
                Some("a required before collector failed".to_owned()),
            ),
        );
    }
    let lost = unreachable_ssh_nodes(config, before);
    assert(texts(lost@).len() == lost@.len());
    if lost.len() > 0 {
        let list = joined_texts(&lost, ", ");
        let error = glue3(
            "SSH failed for every before collector on ",
            list.as_str(),
            "; fix SSH (host keys, identity, reachability) before benchmarking",
        );
        let result = no_benchmark("not-started", false, Some(false), Some(error.clone()));
        return Decision::Refuse(result, error);
    }
    Decision::Benchmark
}

/// A node that answered one of its collectors does not stop the benchmark.
pub proof fn a_node_that_answers_is_reachable(
    collectors: Seq<CollectorConfig>,
    outputs: Seq<CollectorOutput>,
    i: int,
)
    requires
        0 <= i < outputs.len(),
        ssh_node(collectors)(outputs[i]) is Some,
        !connection_failed(outputs[i].result),
    ensures
        !unreachable_nodes(collectors, outputs).contains(ssh_node(collectors)(outputs[i])->0),
{
    let node = ssh_node(collectors)(outputs[i])->0;
    let names = distinct_sorted::<String>(picked(outputs, ssh_node(collectors)));
    let lost = never_connected(collectors, outputs);
    if names.filter(lost).contains(node) {
        names.lemma_filter_contains_rev(lost, node);
        let k = choose|k: int| 0 <= k < names.filter(lost).len() && names.filter(lost)[k] == node;
        names.lemma_filter_pred(lost, k);
        assert(lost(node));
        assert(connection_failed(outputs[i].result));
    }
}

/// The length of the initialization, where both its ends are known.
pub open spec fn initialization_metric(f: spec_fn(Op) -> Number, result: BenchmarkResult) -> Seq<
    MetricView,
> {
    match (result.initialize_started_at, result.initialize_finished_at) {
        (Some(start), Some(end)) => seq![
            MetricView {
                name: "benchmark.initialize_duration"@,
                value: elapsed_ms(f, start.nanos as int, end.nanos as int),
                unit: "ms"@,
                timestamp: None,
                labels: no_labels(),
            },
        ],
        _ => Seq::empty(),
    }
}

/// A run whose record is complete.
pub open spec fn finished_run(
    f: spec_fn(Op) -> Number,
    before: Progress,
    finished_at: Moment,
    after: Progress,
) -> bool {
    &&& value_views(after.metrics@) == value_views(before.metrics@) + initialization_metric(
        f,
        before.manifest.benchmark,
    )
    &&& after.fingerprints@ == before.fingerprints@
    &&& after.transitions@ == before.transitions@
    &&& after.manifest == (RunManifest {
        state: settled(
            before.manifest.benchmark.passed,
            before.manifest.benchmark.interrupted,
            observation_failed(before.manifest.collectors@, before.manifest.enrichments@),
        ),
        finished_at: Some(finished_at),
        analysis_status: if before.manifest.benchmark.passed == Some(true) {
            AnalysisStatus::Pending
        } else {
            AnalysisStatus::NotRequired
        },
        metric_count: after.metrics@.len() as usize,
        fingerprint_count: after.fingerprints@.len() as usize,
        transition_count: after.transitions@.len() as usize,
        ..before.manifest
    })
}

impl Progress {
    /// Completes the record of the run.
    pub fn finish<F: Fn(Op) -> Number>(&mut self, finished_at: Moment, compute: &F)
        requires
            is_arithmetic(*compute),
            on_calendar(old(self).manifest.benchmark.initialize_started_at),
            on_calendar(old(self).manifest.benchmark.initialize_finished_at),
        ensures
            finished_run(arithmetic(*compute), *old(self), finished_at, *final(self)),
            final(self).manifest.metric_count == final(self).metrics@.len(),
            final(self).manifest.fingerprint_count == final(self).fingerprints@.len(),
            final(self).manifest.transition_count == final(self).transitions@.len(),
    {
        let ghost before = *self;
        let started = self.manifest.benchmark.initialize_started_at;
        let ended = self.manifest.benchmark.initialize_finished_at;
        match (started, ended) {
            (Some(start), Some(end)) => {
                let micros = elapsed(start, end);
                let size = apply(compute, Op::Integer(micros));
                let thousand = apply(compute, Op::Integer(1000));
                let value = apply(compute, Op::Divide(size, thousand));
                let labels: Labels = Labels::new();
                add_metric(
                    &mut self.metrics,
                    "benchmark.initialize_duration",
                    value,
                    "ms",
                    None,
                    &labels,
                );
                assert(value_views(self.metrics@) == value_views(before.metrics@)
                    + initialization_metric(arithmetic(*compute), before.manifest.benchmark));
            },
            _ => {
                assert(value_views(before.metrics@) + Seq::<MetricView>::empty() == value_views(
                    before.metrics@,
                ));
            },
        }
        self.manifest.settle_state();
        self.manifest.finished_at = Some(finished_at);
        let passed = match self.manifest.benchmark.passed {
            Some(passed) => passed,
            None => false,
        };
        self.manifest.analysis_status = if passed {
            AnalysisStatus::Pending
        } else {
            AnalysisStatus::NotRequired
        };
        self.manifest.metric_count = self.metrics.len();
        self.manifest.fingerprint_count = self.fingerprints.len();
        self.manifest.transition_count = self.transitions.len();
    }

    /// Says what came of the run.
    pub fn outcome(&self) -> (r: RunOutcome)
        ensures
            r.id@ == self.manifest.id@,
            r.passed == (self.manifest.benchmark.passed == Some(true)),
            r.state == self.manifest.state,
            r.score == self.manifest.benchmark.score,
    {
        RunOutcome {
            id: self.manifest.id.clone(),
            passed: match self.manifest.benchmark.passed {
                Some(passed) => passed,
                None => false,
            },
            state: self.manifest.state,
            score: self.manifest.benchmark.score,
        }
    }
}

/// A finished run awaits an analysis exactly if its benchmark passed, and it is no longer running.
pub proof fn only_passed_runs_await_analysis(
    f: spec_fn(Op) -> Number,
    before: Progress,
    finished_at: Moment,
    after: Progress,
)
    requires
        finished_run(f, before, finished_at, after),
    ensures
        after.manifest.analysis_status == AnalysisStatus::Pending
            <==> after.manifest.benchmark.passed == Some(true),
        after.manifest.state != RunState::Running,
        after.manifest.finished_at is Some,
{
}

/// A run that was not started because of its nodes or its collectors ends as failed, and is not
/// analyzed.
pub proof fn a_run_not_started_fails(
    f: spec_fn(Op) -> Number,
    collectors: Seq<CollectorConfig>,
    outputs: Seq<CollectorOutput>,
    decision: Decision,
    before: Progress,
    finished_at: Moment,
    after: Progress,
)
    requires
        decided(collectors, outputs, false, decision),
        match decision {
            Decision::Benchmark => false,
            Decision::Skip(result) => before.manifest.benchmark == result,
            Decision::Refuse(result, _) => before.manifest.benchmark == result,
        },
        finished_run(f, before, finished_at, after),
    ensures
        after.manifest.state == RunState::Failed,
        after.manifest.analysis_status == AnalysisStatus::NotRequired,
        reasons(after.manifest).len() > 0,
{
    let result = before.manifest.benchmark;
    assert(result@.passed == Some(false));
    assert(result@.interrupted == false);
    assert(result@.error is Some);
}

/// The lines that tell of runs that were found abandoned.
pub fn recovered_lines(recovered: &Vec<String>) -> (r: Vec<String>)
    requires
        forall|i: int| 0 <= i < recovered@.len() ==> has_short_id(#[trigger] recovered@[i]@),
    ensures
        texts(r@) == texts(recovered@).map_values(
            |id: Seq<char>| "recovered  "@ + short_of(id) + " (aborted)"@,
        ),
{
    let ghost each = |id: Seq<char>| "recovered  "@ + short_of(id) + " (aborted)"@;
    let ghost all = texts(recovered@);
    let mut out: Vec<String> = Vec::new();
    let mut i: usize = 0;
    assert(texts(out@) == all.take(0).map_values(each));
    while i < recovered.len()
        invariant
            i <= recovered@.len(),
            all == texts(recovered@),
            each == (|id: Seq<char>| "recovered  "@ + short_of(id) + " (aborted)"@),
            forall|j: int| 0 <= j < recovered@.len() ==> has_short_id(#[trigger] recovered@[j]@),
            texts(out@) == all.take(i as int).map_values(each),
        decreases recovered.len() - i,
    {
        assert(all[i as int] == recovered@[i as int]@);
        let line = glue3("recovered  ", short_id(recovered[i].as_str()).as_str(), " (aborted)");
        push_text(&mut out, line.as_str());
        assert(all.take(i + 1).map_values(each) == all.take(i as int).map_values(each).push(
            each(all[i as int]),
        ));
        i += 1;
    }
    assert(all.take(i as int) == all);
    out
}

/// The commit of a run can be shortened.
pub open spec fn has_short_commit(source: SourceSnapshot) -> bool {
    source.commit_hash matches Some(hash) ==> first_bytes(hash@, 12) is Some
}

pub open spec fn has_short_context(m: RunManifest) -> bool {
    m.agent_context matches Some(context) ==> has_short_id(context.input_id@)
}

pub open spec fn source_text(source: SourceSnapshot) -> Seq<char> {
    (match source.commit_hash {
        Some(hash) => first_bytes(hash@, 12)->0,
        None => "no-git"@,
    }) + if source.dirty {
        " (dirty)"@
    } else {
        ""@
    }
}

/// What is shown when a run begins.
pub open spec fn header_of(m: RunManifest, data_dir: Seq<char>) -> Seq<Seq<char>> {
    seq![
        "run       "@ + short_of(m.id@),
        "mode      "@ + m.mode.name(),
        "hypothesis "@ + m.hypothesis@,
        "source    "@ + source_text(m.source),
    ] + (match m.agent_context {
        Some(context) => seq![
            "context   "@ + context.agent@ + " "@ + context.history_path@ + "#"@ + short_of(
                context.input_id@,
            ),
        ],
        None => Seq::empty(),
    }) + seq!["data      "@ + data_dir, ""@]
}

pub fn header_lines(m: &RunManifest, data_dir: &str) -> (r: Vec<String>)
    requires
        has_short_id(m.id@),
        has_short_commit(m.source),
        has_short_context(*m),
    ensures
        texts(r@) == header_of(*m, data_dir@),
{
    let mut out: Vec<String> = Vec::new();
    assert(texts(out@) == Seq::<Seq<char>>::empty());
    let a = glue2("run       ", short_id(m.id.as_str()).as_str());
    let b = glue2("mode      ", m.mode.as_str());
    let c = glue2("hypothesis ", m.hypothesis.as_str());
    let commit = match &m.source.commit_hash {
        Some(hash) => match head_of(chars_of(hash.as_str()).as_slice(), SHORT_COMMIT) {
            Some(head) => string_of(head.as_slice()),
            None => String::new(),
        },
        None => "no-git".to_owned(),
    };
    let dirty = if m.source.dirty {
        " (dirty)"
    } else {
        ""
    };
    let source = glue2(commit.as_str(), dirty);
    let d = glue2("source    ", source.as_str());
    push_text(&mut out, a.as_str());
    push_text(&mut out, b.as_str());
    push_text(&mut out, c.as_str());
    push_text(&mut out, d.as_str());
    assert(texts(out@) == seq![a@, b@, c@, d@]);
    match &m.agent_context {
        Some(context) => {
            let head = glue5(
                "context   ",
                context.agent.as_str(),
                " ",
                context.history_path.as_str(),
                "#",
            );
            let e = glue2(head.as_str(), short_id(context.input_id.as_str()).as_str());
            push_text(&mut out, e.as_str());
        },
        None => {},
    }
    let f = glue2("data      ", data_dir);
    push_text(&mut out, f.as_str());
    push_text(&mut out, "");
    assert(texts(out@) == header_of(*m, data_dir@));
    out
}

/// The first message of each of the first three categories.
pub open spec fn shown_errors(messages: Seq<BenchmarkMessage>) -> Seq<BenchmarkMessage>
    decreases messages.len(),
{
    if messages.len() == 0 {
        Seq::empty()
    } else {
        let before = shown_errors(messages.drop_last());
        if before.len() < 3 && !before.map_values(category_of()).contains(
            category_of()(messages.last()),
        ) {
            before.push(messages.last())
        } else {
            before
        }
    }
}

pub open spec fn score_text(score: Option<i64>) -> Seq<char> {
    match score {
        Some(score) => signed_decimal(score as int),
        None => "-"@,
    }
}

/// Some texts with the same words before each.
pub open spec fn headed(head: Seq<char>, items: Seq<Seq<char>>) -> Seq<Seq<char>> {
    items.map_values(|s: Seq<char>| head + s)
}

/// What is shown when a run has ended.
pub open spec fn report_of(m: RunManifest, saved: Seq<char>) -> Seq<Seq<char>> {
    seq![
        ""@,
        "run       "@ + short_of(m.id@),
        "result    "@ + if m.benchmark.passed == Some(true) {
            "PASS"@
        } else {
            "FAIL"@
        },
        "score     "@ + score_text(m.benchmark.score),
        "state     "@ + m.state.name(),
    ] + headed("failure   "@, crate::enrichment::first_of(reasons(m), 3)) + headed(
        "error     "@,
        message_texts(
            shown_errors(
                messages_of_kind(all_messages(m.enrichments@), BenchmarkMessageKind::Error),
            ),
        ),
    ) + (if m.benchmark.operator_lines_dropped > 0 {
        seq![
            "operator  "@ + decimal(m.benchmark.operator_lines_dropped as nat)
                + " organizer-only lines dropped"@,
        ]
    } else {
        Seq::empty()
    }) + seq!["analysis  "@ + m.analysis_status.name(), "saved     "@ + saved] + (
    if m.analysis_status == AnalysisStatus::Pending {
        seq![
            ""@,
            "next      isuscope analyze "@ + short_of(m.id@)
                + " <supported|rejected|inconclusive> --analysis <text>"@,
        ]
    } else {
        Seq::empty()
    })
}

fn add_headed(out: &mut Vec<String>, head: &str, items: &Vec<String>)
    ensures
        texts(final(out)@) == texts(old(out)@) + headed(head@, texts(items@)),
{
    let ghost start = texts(out@);
    let ghost all = headed(head@, texts(items@));
    let mut i: usize = 0;
    assert(start + all.take(0) == start);
    while i < items.len()
        invariant
            i <= items@.len(),
            all == headed(head@, texts(items@)),
            texts(out@) == start + all.take(i as int),
        decreases items.len() - i,
    {
        let line = glue2(head, items[i].as_str());
        assert(all[i as int] == line@);
        push_text(out, line.as_str());
        assert(start + all.take(i + 1) == (start + all.take(i as int)).push(all[i as int]));
        i += 1;
    }
    assert(all.take(i as int) == all);
}

fn first_three(items: Vec<String>) -> (r: Vec<String>)
    ensures
        texts(r@) == crate::enrichment::first_of(texts(items@), 3),
{
    let mut items = items;
    let ghost all = texts(items@);
    assert(all.len() == items@.len());
    if items.len() > 3 {
        items.truncate(3);
        assert(texts(items@) == all.take(3));
    }
    items
}

fn error_texts(m: &RunManifest) -> (r: Vec<String>)
    ensures
        texts(r@) == message_texts(
            shown_errors(
                messages_of_kind(all_messages(m.enrichments@), BenchmarkMessageKind::Error),
            ),
        ),
{
    let messages = m.benchmark_messages(BenchmarkMessageKind::Error);
    let ghost all = messages@.map_values(|m: &BenchmarkMessage| *m);
    let mut shown: Vec<&BenchmarkMessage> = Vec::new();
    let mut out: Vec<String> = Vec::new();
    let mut i: usize = 0;
    proof {
        assert(all.take(0) == Seq::<BenchmarkMessage>::empty());
        assert(shown@.map_values(|m: &BenchmarkMessage| *m) == shown_errors(all.take(0)));
        assert(texts(out@) == message_texts(shown_errors(all.take(0))));
    }
    while i < messages.len()
        invariant
            i <= messages@.len(),
            all == messages@.map_values(|m: &BenchmarkMessage| *m),
            shown@.map_values(|m: &BenchmarkMessage| *m) == shown_errors(all.take(i as int)),
            texts(out@) == message_texts(shown_errors(all.take(i as int))),
        decreases messages.len() - i,
    {
        let message = messages[i];
        let ghost before = shown_errors(all.take(i as int));
        let ghost keys = before.map_values(category_of());
        proof {
            assert(all.take(i + 1).drop_last() == all.take(i as int));
            assert(all.take(i + 1).last() == *message);
            assert(before.len() == shown@.len());
        }
        let mut known = false;
        let mut j: usize = 0;
        while j < shown.len()
            invariant
                j <= shown@.len(),
                before == shown@.map_values(|m: &BenchmarkMessage| *m),
                keys == before.map_values(category_of()),
                known == exists|k: int|
                    0 <= k < j && #[trigger] keys[k] == category_of()(*message),
            decreases shown.len() - j,
        {
            assert(keys[j as int] == text_option(shown@[j as int].category));
            if same_category(&shown[j].category, &message.category) {
                known = true;
                assert(keys[j as int] == category_of()(*message));
            }
            j += 1;
        }
        proof {
            assert(keys.len() == shown@.len());
            if keys.contains(category_of()(*message)) {
                let k = choose|k: int|
                    0 <= k < keys.len() && #[trigger] keys[k] == category_of()(*message);
                assert(keys[k] == category_of()(*message));
            }
        }
        if !known && shown.len() < 3 {
            let ghost was = shown@;
            shown.push(message);
            assert(shown@.map_values(|m: &BenchmarkMessage| *m) == before.push(*message));
            push_text(&mut out, message.text.as_str());
            assert(message_texts(before.push(*message)) == message_texts(before).push(
                message.text@,
            ));
        }
        i += 1;
    }
    assert(all.take(i as int) == all);
    out
}

/// What is shown when a run has ended.
pub fn report_lines(m: &RunManifest, saved: &str) -> (r: Vec<String>)
    requires
        has_short_id(m.id@),
    ensures
        texts(r@) == report_of(*m, saved@),
{
    let mut out: Vec<String> = Vec::new();
    assert(texts(out@) == Seq::<Seq<char>>::empty());
    let short = short_id(m.id.as_str());
    let passed = match m.benchmark.passed {
        Some(passed) => passed,
        None => false,
    };
    let verdict = if passed {
        "PASS"
    } else {
        "FAIL"
    };
    let score = match m.benchmark.score {
        Some(score) => string_of(signed_decimal_of(score).as_slice()),
        None => "-".to_owned(),
    };
    let a = glue2("run       ", short.as_str());
    let b = glue2("result    ", verdict);
    let c = glue2("score     ", score.as_str());
    let d = glue2("state     ", m.state.as_str());
    push_text(&mut out, "");
    push_text(&mut out, a.as_str());
    push_text(&mut out, b.as_str());
    push_text(&mut out, c.as_str());
    push_text(&mut out, d.as_str());
    let ghost first = seq![""@, a@, b@, c@, d@];
    assert(texts(out@) == first);
    let causes = first_three(m.failure_reasons());
    add_headed(&mut out, "failure   ", &causes);
    let errors = error_texts(m);
    add_headed(&mut out, "error     ", &errors);
    let ghost second = texts(out@);
    if m.benchmark.operator_lines_dropped > 0 {
        let count = string_of(decimal_of(m.benchmark.operator_lines_dropped as u64).as_slice());
        let line = glue3("operator  ", count.as_str(), " organizer-only lines dropped");
        push_text(&mut out, line.as_str());
        assert(second.push(line@) == second + seq![line@]);
    } else {
        assert(second + Seq::<Seq<char>>::empty() == second);
    }
    let ghost third = texts(out@);
    let e = glue2("analysis  ", m.analysis_status.as_str());
    let f = glue2("saved     ", saved);
    push_text(&mut out, e.as_str());
    push_text(&mut out, f.as_str());
    assert(third.push(e@).push(f@) == third + seq![e@, f@]);
    let ghost fourth = texts(out@);
    if m.analysis_status == AnalysisStatus::Pending {
        let line = glue3(
            "next      isuscope analyze ",
            short.as_str(),
            " <supported|rejected|inconclusive> --analysis <text>",
        );
        push_text(&mut out, "");
        push_text(&mut out, line.as_str());
        assert(fourth.push(""@).push(line@) == fourth + seq![""@, line@]);
    } else {
        assert(fourth + Seq::<Seq<char>>::empty() == fourth);
    }
    out
}

} // verus!
