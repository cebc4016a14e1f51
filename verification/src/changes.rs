//! Changes and what was decided of them, apart from the verdicts on hypotheses and from what is
//! deployed.
use crate::diff::{score_change, score_diff, scores_compare, ScoreDiff};
use crate::join::sort_by_keys;
use crate::model::{Fingerprint, RunAnalysis, RunManifest, SourceSnapshot};
use crate::moment::Moment;
use crate::number::{arithmetic, is_arithmetic, Number, Op};
use crate::order::{models, stable_sorted, Key, Reverse};
use crate::premises::{compare_premises, premises_of, Premises};
use crate::report::text_option;
use crate::runner::{first_bytes, has_short_commit, head_of};
use crate::text::{alnum, blank, chars_of, glue2, glue3, is_alnum, is_blank, same, string_of};
use vstd::prelude::*;

verus! {

#[derive(Clone, Copy, Debug, PartialEq, Eq, Structural)]
pub enum DecisionStatus {
    Accepted,
    Provisional,
    Rejected,
    Deferred,
}

impl DecisionStatus {
    pub open spec fn name(self) -> Seq<char> {
        match self {
            DecisionStatus::Accepted => "accepted"@,
            DecisionStatus::Provisional => "provisional"@,
            DecisionStatus::Rejected => "rejected"@,
            DecisionStatus::Deferred => "deferred"@,
        }
    }

    pub fn as_str(self) -> (r: &'static str)
        ensures
            r@ == self.name(),
    {
        match self {
            DecisionStatus::Accepted => "accepted",
            DecisionStatus::Provisional => "provisional",
            DecisionStatus::Rejected => "rejected",
            DecisionStatus::Deferred => "deferred",
        }
    }
}

#[derive(Clone, Debug)]
pub struct Change {
    pub schema_version: u32,
    pub id: String,
    pub description: String,
    pub created_at: Moment,
    pub target: Option<String>,
}

/// A run that a decision rests on, with the source that it ran.
#[derive(Clone, Debug)]
pub struct Evidence {
    pub run_id: String,
    pub source: SourceSnapshot,
}

#[derive(Clone, Debug)]
pub struct Decision {
    pub schema_version: u32,
    pub id: String,
    pub change_id: String,
    pub created_at: Moment,
    pub status: DecisionStatus,
    pub reason: String,
    pub revisit: Option<String>,
    pub evidence: Vec<Evidence>,
}

/// A decision that was checked and is not yet written.
#[derive(Debug)]
pub struct PreparedDecision {
    pub change_id: String,
    pub status: DecisionStatus,
    pub revisit: Option<String>,
    /// Description and target of a change that does not exist yet.
    pub create: Option<(String, Option<String>)>,
}

#[derive(Debug)]
pub struct ChangeHistory {
    pub change: Change,
    pub decisions: Vec<Decision>,
}

#[derive(Debug)]
pub struct ChangeSummary {
    pub change: Change,
    pub latest_decision: Option<Decision>,
}

/// The scores of two runs side by side.
#[derive(Clone, Debug)]
pub struct ScoreComparison {
    pub base_run_id: String,
    pub candidate_run_id: String,
    pub score: ScoreDiff,
    pub sample_count_per_side: usize,
    /// What the runs have in common beside their scores.
    pub premises: Premises,
}

#[derive(Debug)]
pub struct RunReview {
    pub latest_analysis: Option<RunAnalysis>,
    pub comparison: Option<ScoreComparison>,
    /// Current decisions for changes that cite this run, not what is deployed.
    pub changes: Vec<ChangeSummary>,
    pub changes_truncated: bool,
}

/// Why a change or a decision is refused.
#[derive(Clone, Debug)]
pub enum ChangeError {
    Id,
    NoDescription,
    NoReason,
    NoRevisit,
    NoRuns,
    NotFinalized,
    InvalidDecision,
    InvalidChange,
    /// A change with this identifier exists, and was described anew.
    Exists(String),
    NoDescriptionForNew,
}

impl ChangeError {
    pub open spec fn text(self) -> Seq<char> {
        match self {
            ChangeError::Id => "change ID must contain 1–100 ASCII letters, digits, '-' or '_'"@,
            ChangeError::NoDescription => "description must not be empty"@,
            ChangeError::NoReason => "reason must not be empty"@,
            ChangeError::NoRevisit => "provisional decisions require a non-empty --revisit"@,
            ChangeError::NoRuns => "at least one evidence run is required"@,
            ChangeError::NotFinalized => "evidence run must be finalized"@,
            ChangeError::InvalidDecision => "invalid decision record"@,
            ChangeError::InvalidChange => "invalid change record"@,
            ChangeError::Exists(id) => "change '"@ + id@
                + "' already exists; --description is only for a new change"@,
            ChangeError::NoDescriptionForNew =>
                "a new change needs --description when the run has no hypothesis"@,
        }
    }

    pub fn message(&self) -> (r: String)
        ensures
            r@ == self.text(),
    {
        match self {
            ChangeError::Id =>
                "change ID must contain 1–100 ASCII letters, digits, '-' or '_'".to_owned(),
            ChangeError::NoDescription => "description must not be empty".to_owned(),
            ChangeError::NoReason => "reason must not be empty".to_owned(),
            ChangeError::NoRevisit =>
                "provisional decisions require a non-empty --revisit".to_owned(),
            ChangeError::NoRuns => "at least one evidence run is required".to_owned(),
            ChangeError::NotFinalized => "evidence run must be finalized".to_owned(),
            ChangeError::InvalidDecision => "invalid decision record".to_owned(),
            ChangeError::InvalidChange => "invalid change record".to_owned(),
            ChangeError::Exists(id) => glue3(
                "change '",
                id.as_str(),
                "' already exists; --description is only for a new change",
            ),
            ChangeError::NoDescriptionForNew =>
                "a new change needs --description when the run has no hypothesis".to_owned(),
        }
    }
}

pub open spec fn is_id_char(c: char) -> bool {
    is_alnum(c) || c == '-' || c == '_'
}

/// An identifier that can be a file name everywhere.
pub open spec fn is_change_id(id: Seq<char>) -> bool {
    1 <= id.len() <= 100 && forall|i: int| 0 <= i < id.len() ==> is_id_char(#[trigger] id[i])
}

/// Checks the identifier of a change.
pub fn validate_id(id: &str) -> (r: Result<(), ChangeError>)
    ensures
        match r {
            Ok(_) => is_change_id(id@),
            Err(error) => !is_change_id(id@) && error == ChangeError::Id,
        },
{
    let chars = chars_of(id);
    if chars.len() == 0 || chars.len() > 100 {
        return Err(ChangeError::Id);
    }
    let mut i: usize = 0;
    while i < chars.len()
        invariant
            i <= chars@.len(),
            chars@ == id@,
            forall|j: int| 0 <= j < i ==> is_id_char(#[trigger] id@[j]),
        decreases chars.len() - i,
    {
        let c = chars[i];
        if !alnum(c) && c != '-' && c != '_' {
            assert(!is_id_char(id@[i as int]));
            return Err(ChangeError::Id);
        }
        i += 1;
    }
    Ok(())
}

/// Makes a change.
pub fn new_change(id: &str, description: String, created_at: Moment, target: Option<String>) -> (r:
    Result<Change, ChangeError>)
    ensures
        match r {
            Ok(change) => {
                &&& is_change_id(id@)
                &&& !is_blank(description@)
                &&& change.schema_version == 1
                &&& change.id@ == id@
                &&& change.description == description
                &&& change.created_at == created_at
                &&& change.target == target
            },
            Err(ChangeError::Id) => !is_change_id(id@),
            Err(ChangeError::NoDescription) => is_change_id(id@) && is_blank(description@),
            Err(_) => false,
        },
{
    match validate_id(id) {
        Ok(_) => {},
        Err(error) => {
            return Err(error);
        },
    }
    if blank(description.as_str()) {
        return Err(ChangeError::NoDescription);
    }
    Ok(Change { schema_version: 1, id: id.to_owned(), description, created_at, target })
}

/// Decisions go by the time at which they were made.
pub open spec fn decision_key() -> spec_fn(Decision) -> (int, Seq<char>) {
    |d: Decision| (d.created_at.nanos as int, d.id@)
}

pub open spec fn is_own_decision(id: Seq<char>, d: Decision) -> bool {
    d.change_id@ == id && d.schema_version == 1
}

/// All decisions belong to the change.
pub open spec fn all_own(id: Seq<char>, decisions: Seq<Decision>) -> bool {
    forall|i: int| 0 <= i < decisions.len() ==> is_own_decision(id, #[trigger] decisions[i])
}

pub open spec fn is_own_change(id: Seq<char>, change: Change) -> bool {
    change.id@ == id && change.schema_version == 1
}

fn decision_keys(decisions: &Vec<Decision>) -> (r: Vec<(Moment, String)>)
    ensures
        models(r@) == decisions@.map_values(decision_key()),
{
    let mut out: Vec<(Moment, String)> = Vec::new();
    let ghost all = decisions@.map_values(decision_key());
    let mut i: usize = 0;
    assert(models(out@) == all.take(0));
    while i < decisions.len()
        invariant
            i <= decisions@.len(),
            all == decisions@.map_values(decision_key()),
            models(out@) == all.take(i as int),
        decreases decisions.len() - i,
    {
        let ghost was = out@;
        let k = (decisions[i].created_at, decisions[i].id.clone());
        let ghost model = k.model();
        assert(model == all[i as int]);
        out.push(k);
        assert(models(out@) == models(was).push(model));
        assert(all.take(i + 1) == all.take(i as int).push(all[i as int]));
        i += 1;
    }
    assert(all.take(i as int) == all);
    out
}

/// Puts the record of a change and those of its decisions together, in the order in which they were
/// made. Records that belong elsewhere are refused.
pub fn change_history(id: &str, change: Change, decisions: Vec<Decision>) -> (r: Result<
    ChangeHistory,
    ChangeError,
>)
    ensures
        match r {
            Ok(history) => {
                &&& is_change_id(id@)
                &&& is_own_change(id@, change)
                &&& all_own(id@, decisions@)
                &&& history.change == change
                &&& history.decisions@ == stable_sorted::<Decision, (Moment, String)>(
                    decisions@,
                    decision_key(),
                )
            },
            Err(ChangeError::Id) => !is_change_id(id@),
            Err(ChangeError::InvalidDecision) => is_change_id(id@) && !all_own(id@, decisions@),
            Err(ChangeError::InvalidChange) => is_change_id(id@) && all_own(id@, decisions@)
                && !is_own_change(id@, change),
            Err(_) => false,
        },
{
    match validate_id(id) {
        Ok(_) => {},
        Err(error) => {
            return Err(error);
        },
    }
    let mut i: usize = 0;
    while i < decisions.len()
        invariant
            i <= decisions@.len(),
            is_change_id(id@),
            forall|j: int| 0 <= j < i ==> is_own_decision(id@, #[trigger] decisions@[j]),
        decreases decisions.len() - i,
    {
        if !same(decisions[i].change_id.as_str(), id) || decisions[i].schema_version != 1 {
            assert(!is_own_decision(id@, decisions@[i as int]));
            return Err(ChangeError::InvalidDecision);
        }
        i += 1;
    }
    if !same(change.id.as_str(), id) || change.schema_version != 1 {
        return Err(ChangeError::InvalidChange);
    }
    let keys = decision_keys(&decisions);
    let sorted = sort_by_keys(decisions, &keys, Ghost(decision_key()));
    Ok(ChangeHistory { change, decisions: sorted })
}

/// A provisional decision says when it is looked at again.
pub open spec fn lacks_revisit(status: DecisionStatus, revisit: Option<Seq<char>>) -> bool {
    status == DecisionStatus::Provisional && match revisit {
        Some(text) => is_blank(text),
        None => true,
    }
}

fn needs_revisit(status: DecisionStatus, revisit: &Option<String>) -> (r: bool)
    ensures
        r == lacks_revisit(status, text_option(*revisit)),
{
    if status == DecisionStatus::Provisional {
        match revisit {
            Some(text) => blank(text.as_str()),
            None => true,
        }
    } else {
        false
    }
}

/// What is wrong with a decision.
pub open spec fn decision_fault(
    status: DecisionStatus,
    reason: Seq<char>,
    revisit: Option<Seq<char>>,
    runs: nat,
) -> Option<ChangeError> {
    if is_blank(reason) {
        Some(ChangeError::NoReason)
    } else if lacks_revisit(status, revisit) {
        Some(ChangeError::NoRevisit)
    } else if runs == 0 {
        Some(ChangeError::NoRuns)
    } else {
        None
    }
}

/// Checks a decision before its runs are looked up.
pub fn check_decision(
    status: DecisionStatus,
    reason: &str,
    revisit: &Option<String>,
    runs: usize,
) -> (r: Result<(), ChangeError>)
    ensures
        match r {
            Ok(_) => decision_fault(status, reason@, text_option(*revisit), runs as nat) is None,
            Err(error) => decision_fault(status, reason@, text_option(*revisit), runs as nat)
                == Some(error),
        },
{
    if blank(reason) {
        return Err(ChangeError::NoReason);
    }
    if needs_revisit(status, revisit) {
        return Err(ChangeError::NoRevisit);
    }
    if runs == 0 {
        return Err(ChangeError::NoRuns);
    }
    Ok(())
}

/// The run is among the evidence.
pub open spec fn cites(evidence: Seq<Evidence>, run_id: Seq<char>) -> bool {
    exists|i: int| 0 <= i < evidence.len() && (#[trigger] evidence[i]).run_id@ == run_id
}

/// The first evidence of each run.
pub open spec fn distinct_evidence(evidence: Seq<Evidence>) -> Seq<Evidence>
    decreases evidence.len(),
{
    if evidence.len() == 0 {
        Seq::empty()
    } else {
        let before = distinct_evidence(evidence.drop_last());
        if cites(before, evidence.last().run_id@) {
            before
        } else {
            before.push(evidence.last())
        }
    }
}

fn is_cited(evidence: &Vec<Evidence>, run_id: &str) -> (r: bool)
    ensures
        r == cites(evidence@, run_id@),
{
    let mut i: usize = 0;
    while i < evidence.len()
        invariant
            i <= evidence@.len(),
            forall|j: int| 0 <= j < i ==> (#[trigger] evidence@[j]).run_id@ != run_id@,
        decreases evidence.len() - i,
    {
        if same(evidence[i].run_id.as_str(), run_id) {
            return true;
        }
        i += 1;
    }
    false
}

fn keep_distinct(evidence: Vec<Evidence>) -> (r: Vec<Evidence>)
    ensures
        r@ == distinct_evidence(evidence@),
{
    let ghost all = evidence@;
    let mut out: Vec<Evidence> = Vec::new();
    assert(all.take(0) == Seq::<Evidence>::empty());
    for item in it: evidence
        invariant
            it.seq() == all,
            out@ == distinct_evidence(all.take(it.index() as int)),
    {
        let ghost i = it.index() as int;
        assert(all[i] == item);
        assert(all.take(i + 1).drop_last() == all.take(i));
        assert(all.take(i + 1).last() == item);
        if !is_cited(&out, item.run_id.as_str()) {
            out.push(item);
        }
    }
    assert(all.take(all.len() as int) == all);
    out
}

/// Makes a decision that was checked.
pub fn new_decision(
    id: String,
    change_id: &str,
    created_at: Moment,
    status: DecisionStatus,
    reason: String,
    revisit: Option<String>,
    evidence: Vec<Evidence>,
) -> (r: Result<Decision, ChangeError>)
    ensures
        match r {
            Ok(d) => {
                &&& decision_fault(
                    status,
                    reason@,
                    text_option(revisit),
                    evidence@.len(),
                ) is None
                &&& d.schema_version == 1
                &&& d.id == id
                &&& d.change_id@ == change_id@
                &&& d.created_at == created_at
                &&& d.status == status
                &&& d.reason == reason
                &&& d.revisit == revisit
                &&& d.evidence@ == distinct_evidence(evidence@)
            },
            Err(error) => decision_fault(
                status,
                reason@,
                text_option(revisit),
                evidence@.len(),
            ) == Some(error),
        },
{
    match check_decision(status, reason.as_str(), &revisit, evidence.len()) {
        Ok(_) => {},
        Err(error) => {
            return Err(error);
        },
    }
    Ok(
        Decision {
            schema_version: 1,
            id,
            change_id: change_id.to_owned(),
            created_at,
            status,
            reason,
            revisit,
            evidence: keep_distinct(evidence),
        },
    )
}

/// A decision cites each run once, and every run that was given.
pub proof fn every_run_is_cited_once(evidence: Seq<Evidence>)
    ensures
        forall|run: Seq<char>| #[trigger]
            cites(distinct_evidence(evidence), run) == cites(evidence, run),
        forall|i: int, j: int|
            0 <= i < j < distinct_evidence(evidence).len() ==> (#[trigger] distinct_evidence(
                evidence,
            )[i]).run_id@ != (#[trigger] distinct_evidence(evidence)[j]).run_id@,
    decreases evidence.len(),
{
    if evidence.len() > 0 {
        let head = evidence.drop_last();
        let last = evidence.last();
        every_run_is_cited_once(head);
        let before = distinct_evidence(head);
        let all = distinct_evidence(evidence);
        assert forall|run: Seq<char>| #[trigger] cites(all, run) == cites(evidence, run) by {
            assert(cites(before, run) == cites(head, run));
            if cites(all, run) {
                let i = choose|i: int| 0 <= i < all.len() && (#[trigger] all[i]).run_id@ == run;
                if i < before.len() {
                    assert(before[i].run_id@ == run);
                    let j = choose|j: int|
                        0 <= j < head.len() && (#[trigger] head[j]).run_id@ == run;
                    assert(evidence[j].run_id@ == run);
                } else {
                    assert(evidence[evidence.len() - 1].run_id@ == run);
                }
            }
            if cites(evidence, run) {
                let i = choose|i: int|
                    0 <= i < evidence.len() && (#[trigger] evidence[i]).run_id@ == run;
                if i < head.len() {
                    assert(head[i].run_id@ == run);
                } else if !cites(before, last.run_id@) {
                    assert(all.last().run_id@ == run);
                }
                if cites(before, run) {
                    let k = choose|k: int|
                        0 <= k < before.len() && (#[trigger] before[k]).run_id@ == run;
                    assert(all[k].run_id@ == run);
                }
            }
        }
        assert forall|i: int, j: int| 0 <= i < j < all.len() implies (#[trigger] all[i]).run_id@ != (
        #[trigger] all[j]).run_id@ by {
            if j < before.len() {
                assert(before[i].run_id@ != before[j].run_id@);
            } else {
                assert(before[i].run_id@ == all[i].run_id@);
                if all[i].run_id@ == last.run_id@ {
                    assert(cites(before, last.run_id@));
                }
            }
        }
    }
}

/// The target of a change that is made from a run.
pub open spec fn target_of(source: SourceSnapshot) -> Option<Seq<char>> {
    match source.commit_hash {
        Some(hash) => Some("commit "@ + first_bytes(hash@, 12)->0),
        None => None,
    }
}

/// What can be wrong with a decision that is made together with an analysis.
pub enum PrepareFault {
    Id,
    NoRevisit,
    NotFinalized,
    Exists,
    NoDescriptionForNew,
}

/// What is wrong with a decision that is made together with an analysis.
pub open spec fn prepare_fault(
    change_id: Seq<char>,
    status: DecisionStatus,
    description: Option<Seq<char>>,
    revisit: Option<Seq<char>>,
    finalized: bool,
    exists_already: bool,
    hypothesis: Seq<char>,
) -> Option<PrepareFault> {
    if !is_change_id(change_id) {
        Some(PrepareFault::Id)
    } else if lacks_revisit(status, revisit) {
        Some(PrepareFault::NoRevisit)
    } else if !finalized {
        Some(PrepareFault::NotFinalized)
    } else if exists_already && description is Some {
        Some(PrepareFault::Exists)
    } else if !exists_already && is_blank(
        match description {
            Some(text) => text,
            None => hypothesis,
        },
    ) {
        Some(PrepareFault::NoDescriptionForNew)
    } else {
        None
    }
}

/// The error says that, of this change.
pub open spec fn says(error: ChangeError, fault: PrepareFault, change_id: Seq<char>) -> bool {
    match fault {
        PrepareFault::Id => error is Id,
        PrepareFault::NoRevisit => error is NoRevisit,
        PrepareFault::NotFinalized => error is NotFinalized,
        PrepareFault::Exists => error matches ChangeError::Exists(id) && id@ == change_id,
        PrepareFault::NoDescriptionForNew => error is NoDescriptionForNew,
    }
}

/// Checks a decision that is made together with an analysis, before the analysis is written. A
/// change that does not exist yet is described by `description`, or by the hypothesis of the run.
pub fn prepare_change_decision(
    change_id: &str,
    status: DecisionStatus,
    description: Option<String>,
    revisit: Option<String>,
    finalized: bool,
    exists_already: bool,
    run: &RunManifest,
) -> (r: Result<PreparedDecision, ChangeError>)
    requires
        has_short_commit(run.source),
    ensures
        ({
            let fault = prepare_fault(
                change_id@,
                status,
                text_option(description),
                text_option(revisit),
                finalized,
                exists_already,
                run.hypothesis@,
            );
            match r {
                Ok(prepared) => {
                    &&& fault is None
                    &&& prepared.change_id@ == change_id@
                    &&& prepared.status == status
                    &&& prepared.revisit == revisit
                    &&& match prepared.create {
                        Some((text, target)) => {
                            &&& !exists_already
                            &&& text@ == (match description {
                                Some(d) => d@,
                                None => run.hypothesis@,
                            })
                            &&& text_option(target) == target_of(run.source)
                        },
                        None => exists_already,
                    }
                },
                Err(error) => fault is Some && says(error, fault->0, change_id@),
            }
        }),
{
    match validate_id(change_id) {
        Ok(_) => {},
        Err(error) => {
            return Err(error);
        },
    }
    if needs_revisit(status, &revisit) {
        return Err(ChangeError::NoRevisit);
    }
    if !finalized {
        return Err(ChangeError::NotFinalized);
    }
    if exists_already {
        if description.is_some() {
            return Err(ChangeError::Exists(change_id.to_owned()));
        }
        return Ok(
            PreparedDecision {
                change_id: change_id.to_owned(),
                status,
                revisit,
                create: None,
            },
        );
    }
    let text = match description {
        Some(text) => text,
        None => run.hypothesis.clone(),
    };
    if blank(text.as_str()) {
        return Err(ChangeError::NoDescriptionForNew);
    }
    let target = match &run.source.commit_hash {
        Some(hash) => match head_of(chars_of(hash.as_str()).as_slice(), 12) {
            Some(head) => Some(glue2("commit ", string_of(head.as_slice()).as_str())),
            None => None,
        },
        None => None,
    };
    Ok(
        PreparedDecision {
            change_id: change_id.to_owned(),
            status,
            revisit,
            create: Some((text, target)),
        },
    )
}

/// A change with its current decision, which is the last one.
pub fn summarize(history: ChangeHistory) -> (r: ChangeSummary)
    ensures
        r.change == history.change,
        match r.latest_decision {
            Some(d) => history.decisions@.len() > 0 && d == history.decisions@.last(),
            None => history.decisions@.len() == 0,
        },
{
    let mut decisions = history.decisions;
    let latest_decision = decisions.pop();
    ChangeSummary { change: history.change, latest_decision }
}

/// Some decision of the change rests on the run.
pub open spec fn history_cites(h: ChangeHistory, run: Seq<char>) -> bool {
    exists|i: int| 0 <= i < h.decisions@.len() && cites((#[trigger] h.decisions@[i]).evidence@, run)
}

/// A change that is asked for: by its current decision, and by a run that some decision cites.
pub open spec fn is_listed(status: Option<DecisionStatus>, run: Option<Seq<char>>) -> spec_fn(
    ChangeHistory,
) -> bool {
    |h: ChangeHistory|
        {
            &&& status matches Some(wanted) ==> h.decisions@.len() > 0 && h.decisions@.last().status
                == wanted
            &&& run matches Some(id) ==> history_cites(h, id)
        }
}

/// The latest changes come first.
pub open spec fn change_key() -> spec_fn(ChangeHistory) -> (int, Seq<char>) {
    |h: ChangeHistory| (h.change.created_at.nanos as int, h.change.id@)
}

pub type LatestFirst = (Reverse<Moment>, String);

fn rests_on(h: &ChangeHistory, run: &str) -> (r: bool)
    ensures
        r == history_cites(*h, run@),
{
    let mut i: usize = 0;
    while i < h.decisions.len()
        invariant
            i <= h.decisions@.len(),
            forall|j: int|
                0 <= j < i ==> !cites((#[trigger] h.decisions@[j]).evidence@, run@),
        decreases h.decisions.len() - i,
    {
        if is_cited(&h.decisions[i].evidence, run) {
            return true;
        }
        i += 1;
    }
    false
}

fn is_wanted(h: &ChangeHistory, status: Option<DecisionStatus>, run: Option<&str>) -> (r: bool)
    ensures
        r == is_listed(status, crate::json::str_option(run))(*h),
{
    match status {
        Some(wanted) => {
            if h.decisions.len() == 0 {
                return false;
            }
            let last = h.decisions.len() - 1;
            if h.decisions[last].status != wanted {
                return false;
            }
        },
        None => {},
    }
    match run {
        Some(id) => rests_on(h, id),
        None => true,
    }
}

fn change_keys(histories: &Vec<ChangeHistory>) -> (r: Vec<LatestFirst>)
    ensures
        models(r@) == histories@.map_values(change_key()),
{
    let mut out: Vec<LatestFirst> = Vec::new();
    let ghost all = histories@.map_values(change_key());
    let mut i: usize = 0;
    assert(models(out@) == all.take(0));
    while i < histories.len()
        invariant
            i <= histories@.len(),
            all == histories@.map_values(change_key()),
            models(out@) == all.take(i as int),
        decreases histories.len() - i,
    {
        let ghost was = out@;
        let change = &histories[i].change;
        let k = (Reverse { key: change.created_at }, change.id.clone());
        let ghost model = k.model();
        assert(model == all[i as int]);
        out.push(k);
        assert(models(out@) == models(was).push(model));
        assert(all.take(i + 1) == all.take(i as int).push(all[i as int]));
        i += 1;
    }
    assert(all.take(i as int) == all);
    out
}

/// The changes that are asked for, the latest first, as many as the limit allows.
pub open spec fn listed(
    histories: Seq<ChangeHistory>,
    status: Option<DecisionStatus>,
    run: Option<Seq<char>>,
    limit: nat,
) -> Seq<ChangeHistory> {
    crate::enrichment::first_of(
        stable_sorted::<ChangeHistory, LatestFirst>(
            histories.filter(is_listed(status, run)),
            change_key(),
        ),
        limit,
    )
}

/// Lists the changes that are asked for.
pub fn list_changes(
    histories: Vec<ChangeHistory>,
    status: Option<DecisionStatus>,
    run: Option<&str>,
    limit: usize,
) -> (r: Vec<ChangeHistory>)
    ensures
        r@ == listed(histories@, status, crate::json::str_option(run), limit as nat),
{
    let ghost all = histories@;
    let ghost p = is_listed(status, crate::json::str_option(run));
    let mut chosen: Vec<ChangeHistory> = Vec::new();
    proof {
        reveal(Seq::filter);
        assert(all.take(0) == Seq::<ChangeHistory>::empty());
    }
    for h in it: histories
        invariant
            it.seq() == all,
            p == is_listed(status, crate::json::str_option(run)),
            chosen@ == all.take(it.index() as int).filter(p),
    {
        let ghost i = it.index() as int;
        proof {
            reveal(Seq::filter);
            assert(all[i] == h);
            assert(all.take(i + 1).drop_last() == all.take(i));
            assert(all.take(i + 1).last() == h);
        }
        if is_wanted(&h, status, run) {
            chosen.push(h);
        }
    }
    assert(all.take(all.len() as int) == all);
    let keys = change_keys(&chosen);
    let mut sorted = sort_by_keys(chosen, &keys, Ghost(change_key()));
    if sorted.len() > limit {
        sorted.truncate(limit);
    }
    sorted
}

/// How many changes a review shows.
pub const REVIEW_LIMIT: usize = 20;

/// Compares the score of a run with that of the run that its latest analysis names.
pub fn compare_scores<F: Fn(Op) -> Number>(
    base: &RunManifest,
    base_prints: &Vec<Fingerprint>,
    run: &RunManifest,
    prints: &Vec<Fingerprint>,
    compute: &F,
) -> (r: ScoreComparison)
    requires
        is_arithmetic(*compute),
        scores_compare(base.benchmark.score, run.benchmark.score),
    ensures
        r.base_run_id@ == base.id@,
        r.candidate_run_id@ == run.id@,
        r.score == score_change(
            arithmetic(*compute),
            base.benchmark.score,
            run.benchmark.score,
        ),
        r.sample_count_per_side == 1,
        premises_of(*base, base_prints@, *run, prints@, r.premises),
{
    ScoreComparison {
        base_run_id: base.id.clone(),
        candidate_run_id: run.id.clone(),
        score: score_diff(base.benchmark.score, run.benchmark.score, compute),
        sample_count_per_side: 1,
        premises: compare_premises(base, base_prints, run, prints),
    }
}

/// Puts a review together. `changes` are those that cite the run, one more than are shown where
/// there are more.
pub fn review(
    latest_analysis: Option<RunAnalysis>,
    comparison: Option<ScoreComparison>,
    changes: Vec<ChangeSummary>,
) -> (r: RunReview)
    ensures
        r.latest_analysis == latest_analysis,
        r.comparison == comparison,
        r.changes@ == crate::enrichment::first_of(changes@, REVIEW_LIMIT as nat),
        r.changes_truncated == (changes@.len() > REVIEW_LIMIT),
{
    let mut changes = changes;
    let changes_truncated = changes.len() > REVIEW_LIMIT;
    if changes_truncated {
        changes.truncate(REVIEW_LIMIT);
    }
    RunReview { latest_analysis, comparison, changes, changes_truncated }
}

} // verus!
