//! The parts of a benchmark that can be looked at one by one.
use crate::brief::is_dated;
use crate::join::value_views;
use crate::labels::lookup;
use crate::model::{Metric, RunManifest};
use crate::moment::{in_window, to_micros, whole_micros, within, Moment};
use crate::number::{arithmetic, is_arithmetic, Number, Op};
use crate::query::{answers, metric_query, MetricQueryOptions, MetricQueryOutput};
use crate::report::text_option;
use crate::series::{countable, series_of, show_series, start_of, timed_well};
use crate::series::{SeriesOptions, SeriesOutput};
use crate::text::{glue2, glue3, same};
use vstd::prelude::*;

verus! {

/// A part of a benchmark.
#[derive(Clone, Copy, Debug, PartialEq, Eq, Structural)]
pub enum Window {
    /// All of it.
    Whole,
    /// Up to the end of the initialization.
    Initialize,
    /// From the end of the initialization on.
    Load,
}

impl Window {
    pub open spec fn name(self) -> Seq<char> {
        match self {
            Window::Whole => "whole"@,
            Window::Initialize => "initialize"@,
            Window::Load => "load"@,
        }
    }

    pub fn as_str(self) -> (r: &'static str)
        ensures
            r@ == self.name(),
    {
        match self {
            Window::Whole => "whole",
            Window::Initialize => "initialize",
            Window::Load => "load",
        }
    }
}

/// The window of a name.
pub open spec fn named_window(name: Seq<char>) -> Option<Window> {
    if name == "whole"@ {
        Some(Window::Whole)
    } else if name == "initialize"@ {
        Some(Window::Initialize)
    } else if name == "load"@ {
        Some(Window::Load)
    } else {
        None
    }
}

pub fn parse_window(name: &str) -> (r: Option<Window>)
    ensures
        r == named_window(name@),
{
    if same(name, "whole") {
        Some(Window::Whole)
    } else if same(name, "initialize") {
        Some(Window::Initialize)
    } else if same(name, "load") {
        Some(Window::Load)
    } else {
        None
    }
}

/// Every window is found by its name.
pub proof fn windows_are_named(window: Window)
    ensures
        named_window(window.name()) == Some(window),
{
    reveal_strlit("whole");
    reveal_strlit("initialize");
    reveal_strlit("load");
    assert("whole"@.len() == 5 && "initialize"@.len() == 10 && "load"@.len() == 4);
}

/// The run tells where the window lies.
pub open spec fn is_known(window: Window, run: RunManifest) -> bool {
    window == Window::Whole || run.benchmark.initialize_finished_at is Some
}

/// The window holds the moment. The load of a benchmark that has no end goes on.
pub open spec fn covers(window: Window, run: RunManifest, at: Moment) -> bool {
    match (window, run.benchmark.initialize_finished_at) {
        (Window::Whole, _) => true,
        (_, None) => false,
        (Window::Initialize, Some(middle)) => within(at, start_of(run), middle),
        (Window::Load, Some(middle)) => match run.benchmark.finished_at {
            Some(end) => within(at, middle, end),
            None => whole_micros(middle).nanos <= at.nanos,
        },
    }
}

/// A sample belongs to a window by its time, and another metric by its label.
pub open spec fn is_in(window: Window, run: RunManifest) -> spec_fn(Metric) -> bool {
    |m: Metric|
        window == Window::Whole || match m.timestamp {
            Some(at) => covers(window, run, at),
            None => lookup(m.labels@, "window"@) == Some(window.name()),
        }
}

/// No moment is in the initialization and in the load, and each moment of the benchmark is in one
/// of them.
pub proof fn windows_part_the_benchmark(run: RunManifest, at: Moment)
    requires
        run.benchmark.initialize_finished_at is Some,
        run.benchmark.finished_at is Some,
    ensures
        !(covers(Window::Initialize, run, at) && covers(Window::Load, run, at)),
        within(at, start_of(run), run.benchmark.finished_at->0) ==> covers(
            Window::Initialize,
            run,
            at,
        ) || covers(Window::Load, run, at),
        covers(Window::Whole, run, at),
{
}

/// Tells whether a window holds a moment.
pub fn window_holds(window: Window, run: &RunManifest, at: Moment) -> (r: bool)
    requires
        is_dated(*run),
    ensures
        r == covers(window, *run, at),
{
    match window {
        Window::Whole => true,
        Window::Initialize => match run.benchmark.initialize_finished_at {
            Some(middle) => {
                let start = match run.benchmark.started_at {
                    Some(start) => start,
                    None => run.started_at,
                };
                in_window(at, start, middle)
            },
            None => false,
        },
        Window::Load => match run.benchmark.initialize_finished_at {
            Some(middle) => match run.benchmark.finished_at {
                Some(end) => in_window(at, middle, end),
                None => at.nanos >= to_micros(middle).nanos,
            },
            None => false,
        },
    }
}

fn belongs(metric: &Metric, window: Window, run: &RunManifest) -> (r: bool)
    requires
        is_dated(*run),
    ensures
        r == is_in(window, *run)(*metric),
{
    if window == Window::Whole {
        return true;
    }
    match metric.timestamp {
        Some(at) => window_holds(window, run, at),
        None => metric.labels.holds("window", window.as_str()),
    }
}

/// Keeps the metrics of a window, in their order.
pub fn keep_window(metrics: Vec<Metric>, window: Window, run: &RunManifest) -> (r: Vec<Metric>)
    requires
        is_dated(*run),
    ensures
        r@ == metrics@.filter(is_in(window, *run)),
        timed_well(metrics@) ==> timed_well(r@),
{
    let ghost all = metrics@;
    let ghost p = is_in(window, *run);
    let mut out: Vec<Metric> = Vec::new();
    proof {
        reveal(Seq::filter);
        assert(all.take(0) == Seq::<Metric>::empty());
    }
    for metric in it: metrics
        invariant
            it.seq() == all,
            is_dated(*run),
            p == is_in(window, *run),
            out@ == all.take(it.index() as int).filter(p),
            timed_well(all) ==> timed_well(out@),
    {
        proof {
            reveal(Seq::filter);
            let n = it.index() as int;
            assert(all[n] == metric);
            assert(all.take(n + 1).drop_last() == all.take(n));
            assert(all.take(n + 1).last() == metric);
        }
        if belongs(&metric, window, run) {
            out.push(metric);
        }
    }
    assert(all.take(all.len() as int) == all);
    out
}

/// Why a window cannot be looked at.
#[derive(Clone, Debug)]
pub enum WindowError {
    /// No window has this name.
    Unnamed(String),
    /// The run does not tell where the window lies.
    Unknown(Window),
}

pub enum WindowFault {
    Unnamed(Seq<char>),
    Unknown(Window),
}

impl View for WindowError {
    type V = WindowFault;

    open spec fn view(&self) -> WindowFault {
        match self {
            WindowError::Unnamed(name) => WindowFault::Unnamed(name@),
            WindowError::Unknown(window) => WindowFault::Unknown(*window),
        }
    }
}

impl WindowFault {
    pub open spec fn message(self) -> Seq<char> {
        match self {
            WindowFault::Unnamed(name) => "unknown window `"@ + name
                + "`; use whole, initialize or load"@,
            WindowFault::Unknown(window) =>
                "the run does not tell when its initialization ended; it has no window "@
                + window.name(),
        }
    }
}

impl WindowError {
    pub fn message(&self) -> (r: String)
        ensures
            r@ == self@.message(),
    {
        match self {
            WindowError::Unnamed(name) => glue3(
                "unknown window `",
                name.as_str(),
                "`; use whole, initialize or load",
            ),
            WindowError::Unknown(window) => glue2(
                "the run does not tell when its initialization ended; it has no window ",
                window.as_str(),
            ),
        }
    }
}

/// The window that is asked for: all of the benchmark where none is named.
pub open spec fn asked_window(name: Option<Seq<char>>, run: RunManifest) -> Result<
    Window,
    WindowFault,
> {
    match name {
        None => Ok(Window::Whole),
        Some(n) => match named_window(n) {
            None => Err(WindowFault::Unnamed(n)),
            Some(window) => if is_known(window, run) {
                Ok(window)
            } else {
                Err(WindowFault::Unknown(window))
            },
        },
    }
}

/// Finds the window that is asked for.
pub fn find_window(name: &Option<String>, run: &RunManifest) -> (r: Result<Window, WindowError>)
    ensures
        match r {
            Ok(window) => asked_window(text_option(*name), *run) == Ok::<_, WindowFault>(window),
            Err(error) => asked_window(text_option(*name), *run) == Err::<Window, _>(error@),
        },
{
    match name {
        None => Ok(Window::Whole),
        Some(n) => match parse_window(n.as_str()) {
            None => Err(WindowError::Unnamed(n.clone())),
            Some(window) => if window == Window::Whole
                || run.benchmark.initialize_finished_at.is_some() {
                Ok(window)
            } else {
                Err(WindowError::Unknown(window))
            },
        },
    }
}

/// Answers a metric query about the part of a run that it asks for.
pub fn query_run<F: Fn(Op) -> Number>(
    run: &RunManifest,
    metrics: Vec<Metric>,
    options: MetricQueryOptions,
    compute: &F,
) -> (r: Result<MetricQueryOutput, WindowError>)
    requires
        is_arithmetic(*compute),
        is_dated(*run),
    ensures
        match asked_window(text_option(options.window), *run) {
            Ok(window) => r matches Ok(out) && answers(
                arithmetic(*compute),
                run.id@,
                metrics@.filter(is_in(window, *run)),
                options,
                out,
            ),
            Err(fault) => r matches Err(error) && error@ == fault,
        },
{
    match find_window(&options.window, run) {
        Ok(window) => Ok(
            metric_query(run.id.clone(), keep_window(metrics, window, run), options, compute),
        ),
        Err(error) => Err(error),
    }
}

/// Makes the series of the part of a run that is asked for.
pub fn series_of_run<F: Fn(Op) -> Number>(
    run: &RunManifest,
    metrics: Vec<Metric>,
    window: &Option<String>,
    o: &SeriesOptions,
    compute: &F,
) -> (r: Result<SeriesOutput, WindowError>)
    requires
        is_arithmetic(*compute),
        is_dated(*run),
        countable(*run, *o),
        timed_well(metrics@),
    ensures
        match asked_window(text_option(*window), *run) {
            Ok(part) => r matches Ok(out) && series_of(
                arithmetic(*compute),
                *run,
                value_views(metrics@.filter(is_in(part, *run))),
                *o,
                out,
            ),
            Err(fault) => r matches Err(error) && error@ == fault,
        },
{
    match find_window(window, run) {
        Ok(part) => {
            let kept = keep_window(metrics, part, run);
            Ok(show_series(run, kept, o, compute))
        },
        Err(error) => Err(error),
    }
}

/// The labels that are asked for, with the window among them where one is.
pub fn with_window(labels: Vec<(String, String)>, window: &Option<String>) -> (r: Vec<
    (String, String),
>)
    ensures
        match window {
            Some(name) => r@.len() == labels@.len() + 1 && r@.drop_last() == labels@
                && r@.last().0@ == "window"@ && r@.last().1@ == name@,
            None => r@ == labels@,
        },
{
    let mut all = labels;
    if let Some(name) = window {
        all.push(("window".to_owned(), name.clone()));
        assert(all@.drop_last() == labels@);
    }
    all
}

} // verus!
