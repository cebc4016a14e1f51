//! What the arguments of a command say.
use crate::config::push_text;
use crate::enrichment::EnrichOutcome;
use crate::model::{AnalysisVerdict, RunManifest};
use crate::report::text_option;
use crate::runner::{has_short_id, short_id, short_of};
use crate::text::{
    blank, chars_of, decimal, decimal_of, glue2, halves, is_blank, number_of, parsed_number,
    split_once, string_of, texts,
};
use vstd::prelude::*;

verus! {

/// The most runs that are listed at once.
pub const LIST_LIMIT: usize = 1000;

/// The number of runs that a text asks for.
pub open spec fn list_limit(value: Seq<char>) -> Option<nat> {
    match parsed_number(value, 0xffff_ffff_ffff_ffff) {
        Some(n) => if 1 <= n <= 1000 {
            Some(n)
        } else {
            None
        },
        None => None,
    }
}

pub fn parse_list_limit(value: &str) -> (r: Result<usize, String>)
    ensures
        match r {
            Ok(limit) => list_limit(value@) == Some(limit as nat),
            Err(error) => list_limit(value@) is None && error@
                == "limit must be an integer from 1 to 1000"@,
        },
{
    match number_of(chars_of(value).as_slice(), u64::MAX) {
        Some(n) => if 1 <= n && n <= LIST_LIMIT as u64 {
            Ok(n as usize)
        } else {
            Err("limit must be an integer from 1 to 1000".to_owned())
        },
        None => Err("limit must be an integer from 1 to 1000".to_owned()),
    }
}

/// Reads a label that metrics must have.
pub fn parse_label_filter(value: &str) -> (r: Result<(String, String), String>)
    ensures
        match (r, split_once(value@, "="@)) {
            (Ok((key, wanted)), Some((k, v))) => key@ == k && wanted@ == v && k.len() > 0
                && v.len() > 0,
            (Err(error), Some((k, v))) => (k.len() == 0 || v.len() == 0) && error@
                == "label key and value must not be empty"@,
            (Err(error), None) => error@ == "label must use key=value syntax"@,
            (Ok(_), None) => false,
        },
{
    match halves(chars_of(value).as_slice(), chars_of("=").as_slice()) {
        Some((key, wanted)) => {
            if key.len() == 0 || wanted.len() == 0 {
                return Err("label key and value must not be empty".to_owned());
            }
            Ok((string_of(key.as_slice()), string_of(wanted.as_slice())))
        },
        None => Err("label must use key=value syntax".to_owned()),
    }
}

/// Why an analysis is not recorded.
#[derive(Clone, Copy, Debug, PartialEq, Eq, Structural)]
pub enum AnalyzeError {
    SkippedWithAnalysis,
    SkippedWithoutReason,
    ReasonWithoutSkipping,
    NoAnalysis,
    BlankAnalysis,
    /// The text was given twice.
    TwoAnalyses,
}

impl AnalyzeError {
    pub open spec fn text(self) -> Seq<char> {
        match self {
            AnalyzeError::SkippedWithAnalysis =>
                "--reason cannot be combined with --analysis or --analysis-file"@,
            AnalyzeError::SkippedWithoutReason =>
                "the skipped verdict requires a non-empty --reason"@,
            AnalyzeError::ReasonWithoutSkipping =>
                "--reason may be used only with the skipped verdict"@,
            AnalyzeError::NoAnalysis =>
                "analysis requires either --analysis <text> or --analysis-file <path>"@,
            AnalyzeError::BlankAnalysis => "analysis must not be empty"@,
            AnalyzeError::TwoAnalyses => "--analysis cannot be combined with --analysis-file"@,
        }
    }

    pub fn message(self) -> (r: String)
        ensures
            r@ == self.text(),
    {
        match self {
            AnalyzeError::SkippedWithAnalysis =>
                "--reason cannot be combined with --analysis or --analysis-file".to_owned(),
            AnalyzeError::SkippedWithoutReason =>
                "the skipped verdict requires a non-empty --reason".to_owned(),
            AnalyzeError::ReasonWithoutSkipping =>
                "--reason may be used only with the skipped verdict".to_owned(),
            AnalyzeError::NoAnalysis =>
                "analysis requires either --analysis <text> or --analysis-file <path>".to_owned(),
            AnalyzeError::BlankAnalysis => "analysis must not be empty".to_owned(),
            AnalyzeError::TwoAnalyses =>
                "--analysis cannot be combined with --analysis-file".to_owned(),
        }
    }
}

/// Where the text of an analysis comes from.
#[derive(Clone, Debug)]
pub enum AnalysisText {
    Given(String),
    /// It stands in the file that was named.
    InFile,
}

pub enum AnalysisSource {
    Given(Seq<char>),
    InFile,
}

impl View for AnalysisText {
    type V = AnalysisSource;

    open spec fn view(&self) -> AnalysisSource {
        match self {
            AnalysisText::Given(text) => AnalysisSource::Given(text@),
            AnalysisText::InFile => AnalysisSource::InFile,
        }
    }
}

/// What the arguments of an analysis come to. Every analysis has a text; that of a skipped one may
/// be given as its reason instead.
pub open spec fn analysis_source(
    verdict: AnalysisVerdict,
    analysis: Option<Seq<char>>,
    has_file: bool,
    reason: Option<Seq<char>>,
) -> Result<AnalysisSource, AnalyzeError> {
    if verdict == AnalysisVerdict::Skipped && reason is Some {
        if analysis is Some || has_file {
            Err(AnalyzeError::SkippedWithAnalysis)
        } else if is_blank(reason->0) {
            Err(AnalyzeError::SkippedWithoutReason)
        } else {
            Ok(AnalysisSource::Given(reason->0))
        }
    } else if reason is Some {
        Err(AnalyzeError::ReasonWithoutSkipping)
    } else {
        match (analysis, has_file) {
            (Some(text), false) => if is_blank(text) {
                Err(AnalyzeError::BlankAnalysis)
            } else {
                Ok(AnalysisSource::Given(text))
            },
            (None, true) => Ok(AnalysisSource::InFile),
            (None, false) => Err(
                if verdict == AnalysisVerdict::Skipped {
                    AnalyzeError::SkippedWithoutReason
                } else {
                    AnalyzeError::NoAnalysis
                },
            ),
            (Some(_), true) => Err(AnalyzeError::TwoAnalyses),
        }
    }
}

/// Finds out where the text of an analysis comes from.
pub fn plan_analysis(
    verdict: AnalysisVerdict,
    analysis: Option<String>,
    has_file: bool,
    reason: Option<String>,
) -> (r: Result<AnalysisText, AnalyzeError>)
    ensures
        match r {
            Ok(text) => analysis_source(
                verdict,
                text_option(analysis),
                has_file,
                text_option(reason),
            ) == Ok::<AnalysisSource, AnalyzeError>(text@),
            Err(error) => analysis_source(
                verdict,
                text_option(analysis),
                has_file,
                text_option(reason),
            ) == Err::<AnalysisSource, AnalyzeError>(error),
        },
{
    if verdict == AnalysisVerdict::Skipped {
        match reason {
            Some(text) => {
                if analysis.is_some() || has_file {
                    return Err(AnalyzeError::SkippedWithAnalysis);
                }
                if blank(text.as_str()) {
                    return Err(AnalyzeError::SkippedWithoutReason);
                }
                return Ok(AnalysisText::Given(text));
            },
            None => {},
        }
    } else if reason.is_some() {
        return Err(AnalyzeError::ReasonWithoutSkipping);
    }
    match analysis {
        Some(text) => if has_file {
            Err(AnalyzeError::TwoAnalyses)
        } else if blank(text.as_str()) {
            Err(AnalyzeError::BlankAnalysis)
        } else {
            Ok(AnalysisText::Given(text))
        },
        None => if has_file {
            Ok(AnalysisText::InFile)
        } else if verdict == AnalysisVerdict::Skipped {
            Err(AnalyzeError::SkippedWithoutReason)
        } else {
            Err(AnalyzeError::NoAnalysis)
        },
    }
}

/// Checks the text of an analysis that was read from a file.
pub fn check_analysis(body: &str) -> (r: Result<(), AnalyzeError>)
    ensures
        match r {
            Ok(_) => !is_blank(body@),
            Err(error) => is_blank(body@) && error == AnalyzeError::BlankAnalysis,
        },
{
    if blank(body) {
        Err(AnalyzeError::BlankAnalysis)
    } else {
        Ok(())
    }
}

/// What is shown after an analysis was recorded.
pub open spec fn analysis_report(m: RunManifest) -> Seq<Seq<char>> {
    seq![
        "run       "@ + short_of(m.id@),
        "verdict   "@ + m.analyses@.last().verdict.name(),
        "analysis  "@ + m.analysis_status.name(),
        "revisions "@ + decimal(m.analyses@.len()),
    ]
}

pub fn analysis_lines(m: &RunManifest) -> (r: Vec<String>)
    requires
        has_short_id(m.id@),
        m.analyses@.len() > 0,
    ensures
        texts(r@) == analysis_report(*m),
{
    let last = m.analyses.len() - 1;
    let count = string_of(decimal_of(m.analyses.len() as u64).as_slice());
    let a = glue2("run       ", short_id(m.id.as_str()).as_str());
    let b = glue2("verdict   ", m.analyses[last].verdict.as_str());
    let c = glue2("analysis  ", m.analysis_status.as_str());
    let d = glue2("revisions ", count.as_str());
    let mut out: Vec<String> = Vec::new();
    assert(texts(out@) == Seq::<Seq<char>>::empty());
    push_text(&mut out, a.as_str());
    push_text(&mut out, b.as_str());
    push_text(&mut out, c.as_str());
    push_text(&mut out, d.as_str());
    assert(texts(out@) == analysis_report(*m));
    out
}

/// What is shown after the parsers were applied to a saved run.
pub open spec fn enrich_report(outcome: EnrichOutcome) -> Seq<Seq<char>> {
    seq![
        "run       "@ + short_of(outcome.run_id@),
        "parsers   "@ + decimal(outcome.parser_count as nat),
        "metrics   "@ + decimal(outcome.metric_count as nat),
        "result    "@ + if outcome.failed {
            "DEGRADED"@
        } else {
            "COMPLETE"@
        },
    ]
}

pub fn enrich_lines(outcome: &EnrichOutcome) -> (r: Vec<String>)
    requires
        has_short_id(outcome.run_id@),
    ensures
        texts(r@) == enrich_report(*outcome),
{
    let parsers = string_of(decimal_of(outcome.parser_count as u64).as_slice());
    let metrics = string_of(decimal_of(outcome.metric_count as u64).as_slice());
    let word = if outcome.failed {
        "DEGRADED"
    } else {
        "COMPLETE"
    };
    let a = glue2("run       ", short_id(outcome.run_id.as_str()).as_str());
    let b = glue2("parsers   ", parsers.as_str());
    let c = glue2("metrics   ", metrics.as_str());
    let d = glue2("result    ", word);
    let mut out: Vec<String> = Vec::new();
    assert(texts(out@) == Seq::<Seq<char>>::empty());
    push_text(&mut out, a.as_str());
    push_text(&mut out, b.as_str());
    push_text(&mut out, c.as_str());
    push_text(&mut out, d.as_str());
    assert(texts(out@) == enrich_report(*outcome));
    out
}

} // verus!
