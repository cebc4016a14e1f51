//! When a benchmark is started, what its lines tell, and when it has passed.
use crate::benchmark::{observed, printed_score, verdict, ObservationView};
use crate::brief::{hosts_window_of, window_seconds_of};
use crate::collector::{CollectorOutput, ResultView};
use crate::config::{BenchmarkConfig, CollectorConfig, CollectorPhase, Transport};
use crate::diff::score_change;
use crate::enrichment::{
    error_categories, first_of, is_error, is_failure, keeps, kept, message_category, MessageView,
};
use crate::join::value_views;
use crate::json::json_of_text;
use crate::labels::lookup;
use crate::model::{
    BenchmarkMessageKind, Fingerprint, Metric, RunManifest, SourceSnapshot, ToolingSnapshot,
};
use crate::moment::Moment;
use crate::number::{Number, Op};
use crate::order::distinct_sorted_holds;
use crate::order_laws::{choices_agree, keyed_items};
use crate::premises::{
    any_moved, bench_tag, benchmark_premise, environment_premise, found_value, moved,
    observation_premise, source_premise, subject, Premise,
};
use crate::protocol::picked;
use crate::report::text_option;
use crate::runner::{
    connection_failed, decided, finished_run, is_required, is_ssh_before, never_connected,
    required_failed, ssh_node, unreachable_nodes, Decision, Progress,
};
use crate::series::pick_coverage;
use crate::text::{before_char, starts, texts};
use crate::transition::{canonical, event_of, logged_at, ltsv_field, Rule, TransitionOptions};
use crate::windows::{is_in, Window};
use vstd::prelude::*;

verus! {

/// A line on the standard output that is a result by its type.
pub open spec fn is_result_line(stderr: bool, line: Seq<char>) -> bool {
    &&& !stderr
    &&& json_of_text(line) matches Some(value) && value.member_text("type"@) == Some(
        "isuscope.result"@,
    )
}

/// The score that a benchmark is known to have is the one told last: by a result on the standard
/// output, or by the score pattern on either stream. Whether it passed is what a result said last.
/// Nothing else changes either of them.
pub proof fn the_last_score_counts(
    config: BenchmarkConfig,
    stderr: bool,
    line: Seq<char>,
    now: Moment,
    o: ObservationView,
)
    ensures
        ({
            let after = observed(config, stderr, line, now, o);
            let printed = printed_score(config.score_pattern@, line);
            let value = json_of_text(line)->0;
            &&& is_result_line(stderr, line) && value.member_integer("score"@) is Some
                ==> after.score == value.member_integer("score"@)
            &&& !(is_result_line(stderr, line) && value.member_integer("score"@) is Some)
                ==> after.score == match printed {
                Some(score) => Some(score as i64),
                None => o.score,
            }
            &&& after.passed == if is_result_line(stderr, line) && value.member_flag("pass"@)
                is Some {
                value.member_flag("pass"@)
            } else {
                o.passed
            }
            &&& after.protocol_result_count == o.protocol_result_count + if is_result_line(
                stderr,
                line,
            ) {
                1int
            } else {
                0int
            }
        }),
{
    reveal_strlit("isuscope.event");
    reveal_strlit("isuscope.result");
    assert("isuscope.event"@.len() == 14 && "isuscope.result"@.len() == 15);
}

/// A benchmark passes exactly where it ended well, was not interrupted and told one result at most,
/// and where it says that it passed, or says nothing of it and has a score.
pub proof fn benchmarks_pass_by_their_own_word(
    o: ObservationView,
    success: bool,
    interrupted: bool,
)
    ensures
        verdict(o, success, interrupted) <==> success && !interrupted && o.protocol_result_count
            <= 1 && (o.passed == Some(true) || o.passed is None && o.score is Some),
{
}

/// A collector that must not fail before the benchmark failed.
pub open spec fn lacks_a_required_collector(
    collectors: Seq<CollectorConfig>,
    outputs: Seq<CollectorOutput>,
) -> bool {
    exists|i: int, j: int|
        {
            &&& 0 <= i < outputs.len() && 0 <= j < collectors.len()
            &&& (#[trigger] outputs[i]).result.name@ == (#[trigger] collectors[j]).name@
            &&& outputs[i].result.status@ == "failed"@
            &&& collectors[j].phase == CollectorPhase::Before && collectors[j].required
        }
}

/// What came of a collector that works on a node over a connection before the benchmark.
pub open spec fn works_on(
    collectors: Seq<CollectorConfig>,
    output: CollectorOutput,
    node: Seq<char>,
) -> bool {
    &&& output.result.node matches Some(name) && name@ == node
    &&& exists|j: int|
        {
            &&& 0 <= j < collectors.len() && (#[trigger] collectors[j]).name@
                == output.result.name@
            &&& collectors[j].phase == CollectorPhase::Before && collectors[j].transport
                == Transport::Ssh
        }
}

/// A node that some collector works on, and that none could connect to.
pub open spec fn is_lost(
    collectors: Seq<CollectorConfig>,
    outputs: Seq<CollectorOutput>,
    node: Seq<char>,
) -> bool {
    &&& exists|i: int| 0 <= i < outputs.len() && works_on(collectors, #[trigger] outputs[i], node)
    &&& forall|i: int|
        0 <= i < outputs.len() && works_on(collectors, #[trigger] outputs[i], node)
            ==> outputs[i].result.status@ == "failed"@ && outputs[i].result.exit_code == Some(
            255i32,
        )
}

proof fn working_is_ssh(
    collectors: Seq<CollectorConfig>,
    output: CollectorOutput,
    node: Seq<char>,
)
    ensures
        works_on(collectors, output, node) == (ssh_node(collectors)(output) == Some(node)),
{
    if works_on(collectors, output, node) {
        let j = choose|j: int|
            {
                &&& 0 <= j < collectors.len() && (#[trigger] collectors[j]).name@
                    == output.result.name@
                &&& collectors[j].phase == CollectorPhase::Before && collectors[j].transport
                    == Transport::Ssh
            };
        assert(collectors[j].phase == CollectorPhase::Before);
        assert(is_ssh_before(collectors, output.result.name@));
    }
    if ssh_node(collectors)(output) == Some(node) {
        let j = choose|j: int|
            0 <= j < collectors.len() && (#[trigger] collectors[j]).phase
                == CollectorPhase::Before && collectors[j].transport == Transport::Ssh
                && collectors[j].name@ == output.result.name@;
        assert(collectors[j].name@ == output.result.name@);
    }
}

/// What is found comes from one of the items.
pub proof fn picked_comes_from_one<T, U>(items: Seq<T>, pick: spec_fn(T) -> Option<U>, u: U)
    requires
        picked(items, pick).contains(u),
    ensures
        exists|i: int| 0 <= i < items.len() && pick(#[trigger] items[i]) == Some(u),
    decreases items.len(),
{
    if items.len() > 0 {
        let rest = items.drop_last();
        let before = picked(rest, pick);
        let all = picked(items, pick);
        let j = choose|j: int| 0 <= j < all.len() && all[j] == u;
        if j < before.len() {
            assert(before[j] == u);
            picked_comes_from_one(rest, pick, u);
            let i = choose|i: int| 0 <= i < rest.len() && pick(#[trigger] rest[i]) == Some(u);
            assert(items[i] == rest[i]);
        } else {
            assert(pick(items[items.len() - 1]) == Some(u));
        }
    }
}

/// A benchmark is started exactly where the run was not interrupted, no collector failed that must not
/// fail, and no node is lost. A lost node refuses the run; an interruption or a failed collector
/// makes it skip the benchmark.
pub proof fn benchmarks_start_only_when_they_can_be_observed(
    collectors: Seq<CollectorConfig>,
    outputs: Seq<CollectorOutput>,
    cancelled: bool,
    decision: Decision,
)
    requires
        decided(collectors, outputs, cancelled, decision),
    ensures
        decision is Benchmark <==> !cancelled && !lacks_a_required_collector(collectors, outputs)
            && forall|node: Seq<char>| !#[trigger] is_lost(collectors, outputs, node),
        decision is Skip <==> cancelled || lacks_a_required_collector(collectors, outputs),
{
    if required_failed(collectors, outputs) {
        let i = choose|i: int|
            0 <= i < outputs.len() && (#[trigger] outputs[i]).result.status@ == "failed"@
                && is_required(collectors, outputs[i].result.name@);
        let j = choose|j: int|
            0 <= j < collectors.len() && (#[trigger] collectors[j]).phase
                == CollectorPhase::Before && collectors[j].name@ == outputs[i].result.name@
                && collectors[j].required;
        assert(outputs[i].result.name@ == collectors[j].name@);
    }
    if lacks_a_required_collector(collectors, outputs) {
        let (i, j) = choose|i: int, j: int|
            {
                &&& 0 <= i < outputs.len() && 0 <= j < collectors.len()
                &&& (#[trigger] outputs[i]).result.name@ == (#[trigger] collectors[j]).name@
                &&& outputs[i].result.status@ == "failed"@
                &&& collectors[j].phase == CollectorPhase::Before && collectors[j].required
            };
        assert(collectors[j].phase == CollectorPhase::Before);
        assert(is_required(collectors, outputs[i].result.name@));
        assert(outputs[i].result.status@ == "failed"@);
    }
    let nodes = picked(outputs, ssh_node(collectors));
    let names = crate::order::distinct_sorted::<String>(nodes);
    let lost = unreachable_nodes(collectors, outputs);
    let p = never_connected(collectors, outputs);
    distinct_sorted_holds::<String>(nodes);
    assert forall|i: int, node: Seq<char>|
        #![trigger works_on(collectors, outputs[i], node)]
        #![trigger ssh_node(collectors)(outputs[i]), is_lost(collectors, outputs, node)]
        works_on(collectors, outputs[i], node) == (ssh_node(collectors)(outputs[i]) == Some(
            node,
        )) by {
        working_is_ssh(collectors, outputs[i], node);
    }
    if lost.len() > 0 {
        let node = lost[0];
        assert(lost.contains(node));
        names.lemma_filter_contains_rev(p, node);
        names.lemma_filter_pred(p, 0);
        assert(names.contains(node));
        assert(nodes.contains(node));
        picked_comes_from_one(outputs, ssh_node(collectors), node);
        let i = choose|i: int|
            0 <= i < outputs.len() && ssh_node(collectors)(#[trigger] outputs[i]) == Some(node);
        working_is_ssh(collectors, outputs[i], node);
        assert(works_on(collectors, outputs[i], node));
        assert forall|i: int|
            0 <= i < outputs.len() && works_on(collectors, #[trigger] outputs[i], node) implies
            outputs[i].result.status@ == "failed"@ && outputs[i].result.exit_code == Some(
            255i32,
        ) by {
            working_is_ssh(collectors, outputs[i], node);
            assert(connection_failed(outputs[i].result));
        }
        assert(is_lost(collectors, outputs, node));
    }
    assert forall|node: Seq<char>| #[trigger] is_lost(collectors, outputs, node) implies lost.len()
        > 0 by {
        let i = choose|i: int|
            0 <= i < outputs.len() && works_on(collectors, #[trigger] outputs[i], node);
        working_is_ssh(collectors, outputs[i], node);
        crate::alp_laws::something_is_picked(outputs, ssh_node(collectors), i);
        assert(nodes.contains(node));
        assert(names.contains(node));
        assert forall|i: int|
            0 <= i < outputs.len() && ssh_node(collectors)(#[trigger] outputs[i]) == Some(
                node,
            ) implies connection_failed(outputs[i].result) by {
            working_is_ssh(collectors, outputs[i], node);
        }
        assert(p(node));
        let n = choose|n: int| 0 <= n < names.len() && names[n] == node;
        names.lemma_filter_contains(p, n);
    }
}

/// How numbers are ordered by their bits: of numbers without a sign the one with the larger bits is
/// greater, of numbers with a sign the one with the smaller, every number without a sign is greater
/// than one with a sign unless both are zero, and what is not a number is greater than nothing.
pub proof fn numbers_are_ordered_by_their_bits(a: Number, b: Number)
    ensures
        a.bits < 0x8000_0000_0000_0000 && b.bits < 0x8000_0000_0000_0000 && a.bits
            <= 0x7ff0_0000_0000_0000 && b.bits <= 0x7ff0_0000_0000_0000 ==> a.exceeds(b) == (a.bits
            > b.bits),
        0x8000_0000_0000_0000 <= a.bits <= 0xfff0_0000_0000_0000 && 0x8000_0000_0000_0000 <= b.bits
            <= 0xfff0_0000_0000_0000 ==> a.exceeds(b) == (a.bits < b.bits),
        a.bits <= 0x7ff0_0000_0000_0000 && 0x8000_0000_0000_0000 <= b.bits
            <= 0xfff0_0000_0000_0000 ==> !b.exceeds(a) && (a.exceeds(b) <==> a.bits > 0 || b.bits
            > 0x8000_0000_0000_0000),
        a.exceeds(b) ==> !b.exceeds(a) && a.place() > b.place(),
        a.is_nan_spec() ==> !a.exceeds(b) && !b.exceeds(a),
        Number::max_spec(a, b) == a || Number::max_spec(a, b) == b,
        !a.exceeds(Number::max_spec(a, b)) && !b.exceeds(Number::max_spec(a, b)),
        !Number::min_spec(a, b).exceeds(a) && !Number::min_spec(a, b).exceeds(b),
{
}

/// Of the failures that a parser reports the first ten are kept, in their order.
pub proof fn the_first_ten_failures_are_kept(messages: Seq<MessageView>)
    ensures
        ({
            let failures = messages.filter(
                |m: MessageView| m.kind == BenchmarkMessageKind::Failure,
            );
            let shown = kept(messages).filter(
                |m: MessageView| m.kind == BenchmarkMessageKind::Failure,
            );
            shown == if failures.len() > 10 {
                failures.take(10)
            } else {
                failures
            }
        }),
    decreases messages.len(),
{
    reveal(Seq::filter);
    let p = |m: MessageView| m.kind == BenchmarkMessageKind::Failure;
    choices_agree(messages, is_failure(), p);
    if messages.len() > 0 {
        let head = messages.drop_last();
        let m = messages.last();
        the_first_ten_failures_are_kept(head);
        choices_agree(head, is_failure(), p);
        let before = head.filter(p);
        if keeps(head, m) {
            assert(kept(head).push(m).drop_last() == kept(head));
        }
        if p(m) {
            assert(messages.filter(p) == before.push(m));
            if before.len() < 10 {
                assert(kept(messages).filter(p) == kept(head).filter(p).push(m));
            } else {
                assert(before.push(m).take(10) == before.take(10));
                assert(before.take(10) == before || before.len() > 10);
            }
        }
    } else {
        assert(messages.filter(p) == Seq::<MessageView>::empty());
        assert(kept(messages).filter(p) == Seq::<MessageView>::empty());
    }
}

/// An error is kept exactly where fewer than five errors of its category came before it, and its
/// category is one of the first twenty that occur. What was kept before stays kept.
pub proof fn five_errors_of_twenty_categories_are_kept(messages: Seq<MessageView>, m: MessageView)
    requires
        m.kind == BenchmarkMessageKind::Error,
    ensures
        ({
            let errors = messages.filter(|x: MessageView| x.kind == BenchmarkMessageKind::Error);
            let alike = errors.filter(|x: MessageView| x.category == m.category);
            kept(messages.push(m)) == if alike.len() < 5 && first_of(
                error_categories(errors.push(m)),
                20,
            ).contains(m.category) {
                kept(messages).push(m)
            } else {
                kept(messages)
            }
        }),
{
    let p = |x: MessageView| x.kind == BenchmarkMessageKind::Error;
    choices_agree(messages, is_error(), p);
    let errors = messages.filter(p);
    keyed_items(
        errors,
        message_category(),
        m.category,
        |x: MessageView| x.category == m.category,
    );
    assert(messages.push(m).drop_last() == messages);
}

/// What comes before the first of a character holds none of it, and is all that comes before it.
pub proof fn cutting_before_a_character(s: Seq<char>, c: char)
    ensures
        !before_char(s, c).contains(c),
        before_char(s, c).len() <= s.len(),
        s.take(before_char(s, c).len() as int) == before_char(s, c),
        before_char(s, c).len() < s.len() ==> s[before_char(s, c).len() as int] == c,
    decreases s.len(),
{
    if s.len() > 0 && s[0] != c {
        let rest = s.skip(1);
        cutting_before_a_character(rest, c);
        let cut = before_char(rest, c);
        let all = before_char(s, c);
        assert(all == seq![s[0]] + cut);
        assert forall|i: int| 0 <= i < all.len() implies #[trigger] all[i] != c by {
            if i > 0 {
                assert(all[i] == cut[i - 1]);
                assert(cut.contains(cut[i - 1]));
            }
        }
        assert forall|i: int| 0 <= i < all.len() implies s[i] == #[trigger] all[i] by {
            if i > 0 {
                assert(all[i] == cut[i - 1]);
                assert(rest.take(cut.len() as int)[i - 1] == rest[i - 1]);
            }
        }
        assert(s.take(all.len() as int) == all);
    }
}

/// The path of an address: all of it, or what stands before its first question mark.
pub open spec fn is_path_of(uri: Seq<char>, path: Seq<char>) -> bool {
    &&& !path.contains('?')
    &&& path == uri || uri.len() > path.len() && uri.take(path.len() as int) == path
        && uri[path.len() as int] == '?'
}

/// A line of an access log is a request of a session exactly where it tells the method, the path, a
/// session other than a dash, and a time. Its route is the method and the path as the rules write it,
/// whatever stands after a question mark.
pub proof fn requests_are_read_from_their_fields(
    rules: Seq<Rule>,
    line: Seq<char>,
    options: TransitionOptions,
)
    ensures
        ({
            let method = ltsv_field(line, options.method_field@);
            let uri = ltsv_field(line, options.uri_field@);
            let session = ltsv_field(line, options.session_field@);
            let time = ltsv_field(line, options.time_field@);
            let known = method is Some && uri is Some && session is Some && session->0.len() > 0
                && session->0 != "-"@ && time is Some && logged_at(time->0) is Some;
            match event_of(rules, line, options) {
                Some(e) => {
                    &&& known
                    &&& e.session == session->0
                    &&& Some(e.at) == logged_at(time->0)
                    &&& exists|path: Seq<char>|
                        {
                            &&& #[trigger] is_path_of(uri->0, path)
                            &&& e.route == method->0 + " "@ + canonical(rules, path)
                        }
                },
                None => !known,
            }
        }),
{
    let uri = ltsv_field(line, options.uri_field@);
    if uri is Some {
        let path = before_char(uri->0, '?');
        cutting_before_a_character(uri->0, '?');
        if path.len() == uri->0.len() {
            assert(uri->0.take(path.len() as int) == uri->0);
        }
        assert(is_path_of(uri->0, path));
    }
}

/// A score is compared by the candidate less the base, and in percent of a base other than zero.
pub proof fn scores_are_compared_by_their_difference(
    f: spec_fn(Op) -> Number,
    base: i64,
    candidate: i64,
)
    requires
        i64::MIN <= candidate - base <= i64::MAX,
    ensures
        ({
            let d = score_change(f, Some(base), Some(candidate));
            &&& d.base == Some(base) && d.candidate == Some(candidate)
            &&& d.delta matches Some(n) && n == candidate - base
            &&& d.delta_percent == if base == 0 {
                None
            } else {
                Some(
                    f(
                        Op::Multiply(
                            f(
                                Op::Divide(
                                    f(Op::Integer((candidate - base) as i64)),
                                    f(Op::Integer(base)),
                                ),
                            ),
                            f(Op::Integer(100)),
                        ),
                    ),
                )
            }
        }),
{
}

/// Nodes and connections are summed up over the load where the end of the initialization is known, and
/// over all of the benchmark otherwise; so is the time that it took.
pub proof fn the_load_is_summed_up(f: spec_fn(Op) -> Number, run: RunManifest)
    ensures
        hosts_window_of(run) == if run.benchmark.initialize_finished_at is Some {
            Window::Load
        } else {
            Window::Whole
        },
        ({
            let start = if run.benchmark.initialize_finished_at is Some {
                run.benchmark.initialize_finished_at
            } else {
                run.benchmark.started_at
            };
            let micros = (run.benchmark.finished_at->0.nanos - start->0.nanos) / 1000;
            start is Some && run.benchmark.finished_at is Some && 0 < micros <= i64::MAX
                ==> window_seconds_of(f, run) == Some(
                f(Op::Divide(f(Op::Integer(micros as i64)), f(Op::Integer(1_000_000)))),
            )
        }),
{
}

/// An aggregate belongs to a part of the benchmark by its label, and to all of it with any label.
pub proof fn aggregates_belong_where_they_say(run: RunManifest, m: Metric)
    requires
        m.timestamp is None,
    ensures
        is_in(Window::Whole, run)(m),
        is_in(Window::Load, run)(m) <==> lookup(m.labels@, "window"@) == Some("load"@),
        is_in(Window::Initialize, run)(m) <==> lookup(m.labels@, "window"@) == Some("initialize"@),
{
}

/// A series says how each collector fared whose metrics have times.
pub proof fn collectors_with_times_are_listed(collectors: Seq<ResultView>, i: int)
    requires
        0 <= i < collectors.len(),
        ({
            let name = collectors[i].name;
            name == "host-sampler"@ || name == "sysstat"@ || name == "nginx-log-delta"@ || name
                == "nginx-series"@ || name == "mysql-log-delta"@ || name == "perf-series"@
        }),
    ensures
        exists|g: int|
            {
                let c = collectors[i];
                &&& 0 <= g < picked(collectors, pick_coverage()).len() && (#[trigger] picked(
                    collectors,
                    pick_coverage(),
                )[g]).collector == c.name
                &&& picked(collectors, pick_coverage())[g].status == c.status
                &&& picked(collectors, pick_coverage())[g].phase == c.phase
                &&& picked(collectors, pick_coverage())[g].exit_code == c.exit_code
                &&& picked(collectors, pick_coverage())[g].error == c.error
            },
{
    crate::alp_laws::something_is_picked(collectors, pick_coverage(), i);
    let all = picked(collectors, pick_coverage());
    let row = pick_coverage()(collectors[i])->0;
    let g = choose|g: int| 0 <= g < all.len() && all[g] == row;
    assert(all[g].collector == collectors[i].name);
}

/// When the premises of a comparison are said to have changed: where both runs know their source and it
/// differs; where both captured their tooling and any part of it differs; where both say how the load
/// was made and say it differently; where both found a fingerprint of one subject and not the same.
/// They are the same where both know and nothing differs, and unknown in every other case.
pub proof fn premises_change_where_both_know_and_differ(
    a: SourceSnapshot,
    b: SourceSnapshot,
    x: ToolingSnapshot,
    y: ToolingSnapshot,
    base: Seq<Fingerprint>,
    candidate: Seq<Fingerprint>,
    before: Seq<String>,
    after: Seq<String>,
)
    ensures
        ({
            let known = a.state_sha256@.len() > 0 && b.state_sha256@.len() > 0;
            let premise = source_premise(a, b);
            &&& premise == Premise::Unknown <==> !known
            &&& premise == Premise::Changed <==> known && a.state_sha256@ != b.state_sha256@
        }),
        ({
            let known = x.error is None && x.config_sha256@.len() > 0 && y.error is None
                && y.config_sha256@.len() > 0;
            let alike = x.isuscope_version@ == y.isuscope_version@ && x.config_sha256@
                == y.config_sha256@ && text_option(x.routes_sha256) == text_option(y.routes_sha256)
                && text_option(x.setup_script_sha256) == text_option(y.setup_script_sha256)
                && text_option(x.setup_state_sha256) == text_option(y.setup_state_sha256)
                && x.extra_files_sha256@ == y.extra_files_sha256@;
            let premise = observation_premise(x, y);
            &&& premise == Premise::Unknown <==> !known
            &&& premise == Premise::Changed <==> known && !alike
        }),
        ({
            let said = |tags: Seq<String>|
                texts(tags).filter(|tag: Seq<char>| starts(tag, "bench:"@));
            let known = said(before).len() > 0 && said(after).len() > 0;
            let premise = benchmark_premise(before, after);
            &&& premise == Premise::Unknown <==> !known
            &&& premise == Premise::Changed <==> known && said(before) != said(after)
        }),
        environment_premise(base, candidate) == Premise::Changed <==> exists|i: int|
            {
                let of = (
                    (#[trigger] base[i]).name@,
                    lookup(base[i].labels@, "node"@),
                );
                &&& 0 <= i < base.len()
                &&& found_value(base, of) is Some && found_value(candidate, of) is Some
                &&& found_value(base, of) != found_value(candidate, of)
            },
{
    choices_agree(texts(before), bench_tag(), |tag: Seq<char>| starts(tag, "bench:"@));
    choices_agree(texts(after), bench_tag(), |tag: Seq<char>| starts(tag, "bench:"@));
    if any_moved(base, candidate) {
        let i = choose|i: int|
            0 <= i < base.len() && moved(base, candidate, #[trigger] subject(base[i]));
        assert(base[i].name@ == subject(base[i]).0);
    }
    if exists|i: int|
        {
            let of = ((#[trigger] base[i]).name@, lookup(base[i].labels@, "node"@));
            &&& 0 <= i < base.len()
            &&& found_value(base, of) is Some && found_value(candidate, of) is Some
            &&& found_value(base, of) != found_value(candidate, of)
        } {
        let i = choose|i: int|
            {
                let of = ((#[trigger] base[i]).name@, lookup(base[i].labels@, "node"@));
                &&& 0 <= i < base.len()
                &&& found_value(base, of) is Some && found_value(candidate, of) is Some
                &&& found_value(base, of) != found_value(candidate, of)
            };
        assert(moved(base, candidate, subject(base[i])));
    }
}

/// A finished run tells how long its initialization took, in milliseconds, where both its ends are
/// known, and how many metrics, fingerprints and moves it has.
pub proof fn finished_runs_count_what_they_have(
    f: spec_fn(Op) -> Number,
    before: Progress,
    at: Moment,
    after: Progress,
)
    requires
        finished_run(f, before, at, after),
        after.metrics@.len() <= usize::MAX,
        after.fingerprints@.len() <= usize::MAX,
        after.transitions@.len() <= usize::MAX,
    ensures
        after.manifest.metric_count == after.metrics@.len(),
        after.manifest.fingerprint_count == before.fingerprints@.len(),
        after.manifest.transition_count == before.transitions@.len(),
        after.manifest.finished_at == Some(at),
        after.manifest.benchmark == before.manifest.benchmark,
        match (
            before.manifest.benchmark.initialize_started_at,
            before.manifest.benchmark.initialize_finished_at,
        ) {
            (Some(start), Some(end)) => {
                let micros = (end.nanos - start.nanos) / 1000;
                &&& after.metrics@.len() == before.metrics@.len() + 1
                &&& after.metrics@.last().name@ == "benchmark.initialize_duration"@
                &&& after.metrics@.last().unit@ == "ms"@
                &&& start.nanos <= end.nanos && micros <= i64::MAX ==> after.metrics@.last().value
                    == f(Op::Divide(f(Op::Integer(micros as i64)), f(Op::Integer(1000))))
            },
            _ => after.metrics@.len() == before.metrics@.len(),
        },
{
    let views = value_views(after.metrics@);
    assert(views.len() == after.metrics@.len());
    assert(value_views(before.metrics@).len() == before.metrics@.len());
    if after.metrics@.len() > 0 {
        assert(views[views.len() - 1] == after.metrics@.last()@);
    }
}

} // verus!
