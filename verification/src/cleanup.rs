//! The removal of what a run left on the nodes when it was abandoned.
use crate::collector::{login, login_text};
use crate::config::{push_text, LoadedConfig, NodeConfig};
use crate::join::{chain, value_views};
use crate::protocol::picked;
use crate::shell::{command_line, quote_command};
use crate::text::{append_str, chars_of, glue2, glue3, string_of, texts};
use vstd::prelude::*;

verus! {

/// Whether a text is a UUID.
pub uninterp spec fn is_uuid(text: Seq<char>) -> bool;

/// `uuid::Uuid::parse_str`: whether it accepts a text depends on the text alone.
#[verifier::external_body]
fn parses_as_uuid(text: &str) -> (r: bool)
    ensures
        r == is_uuid(text@),
{
    uuid::Uuid::parse_str(text).is_ok()
}

pub const SCRIPT_0: &'static str = "base=/tmp/isuscope-";

pub const SCRIPT_1: &'static str = ".perf; if sudo -n test -s \"$base.pid\" 2>/dev/null; then pid=$(sudo -n cat \"$base.pid\" 2>/dev/null || true); case $pid in ''|*[!0-9]*) ;; *) sudo -n kill -INT \"$pid\" 2>/dev/null || true ;; esac; fi; offcpu=/tmp/isuscope-";

pub const SCRIPT_2: &'static str = ".offcpu; if sudo -n test -s \"$offcpu.pid\" 2>/dev/null; then pid=$(sudo -n cat \"$offcpu.pid\" 2>/dev/null || true); case $pid in ''|*[!0-9]*) ;; *) sudo -n kill -INT -- \"-$pid\" 2>/dev/null || true ;; esac; fi; sudo -n rm -f \"$base.data\" \"$base.log\" \"$base.pid\" \"$offcpu.pid\" \"$offcpu.out\" \"$offcpu.err\" 2>/dev/null || true; find /tmp -maxdepth 1 -type f -name 'isuscope-";

pub const SCRIPT_3: &'static str = ".*' -delete";

/// The script that stops the samplers of a run on a node, and removes their files. It touches nothing
/// but what carries the id of the run.
pub open spec fn script_of(run_id: Seq<char>) -> Seq<char> {
    SCRIPT_0@ + run_id + SCRIPT_1@ + run_id + SCRIPT_2@ + run_id + SCRIPT_3@
}

fn script_for(run_id: &str) -> (r: String)
    ensures
        r@ == script_of(run_id@),
{
    let mut out = chars_of(SCRIPT_0);
    append_str(&mut out, run_id);
    append_str(&mut out, SCRIPT_1);
    append_str(&mut out, run_id);
    append_str(&mut out, SCRIPT_2);
    append_str(&mut out, run_id);
    append_str(&mut out, SCRIPT_3);
    string_of(out.as_slice())
}

/// The arguments of `ssh` that clean up after a run on a node.
pub open spec fn cleanup_arguments(config: LoadedConfig, node: NodeConfig, run_id: Seq<char>) -> Seq<
    Seq<char>,
> {
    config.ssh_arguments() + seq![
        login(config, node),
        "--"@,
        command_line(seq!["sh"@, "-c"@, script_of(run_id)]),
    ]
}

pub fn cleanup_node(config: &LoadedConfig, node: &NodeConfig, run_id: &str) -> (r: Vec<String>)
    ensures
        texts(r@) == cleanup_arguments(*config, *node, run_id@),
{
    let mut out = config.ssh_options();
    let ghost start = texts(out@);
    let target = login_text(config, node);
    let script = script_for(run_id);
    let mut words: Vec<String> = Vec::new();
    assert(texts(words@) == Seq::<Seq<char>>::empty());
    push_text(&mut words, "sh");
    push_text(&mut words, "-c");
    push_text(&mut words, script.as_str());
    assert(texts(words@) == seq!["sh"@, "-c"@, script@]);
    let line = quote_command(&words);
    push_text(&mut out, target.as_str());
    push_text(&mut out, "--");
    push_text(&mut out, line.as_str());
    assert(start.push(target@).push("--"@).push(line@) == start + seq![target@, "--"@, line@]);
    out
}

/// What is done about an abandoned run.
#[derive(Debug)]
pub enum Cleanup {
    /// The id is not one of a run: nothing is done, and this is said.
    Refused(String),
    /// A node is cleaned up.
    OnNode { node: String, arguments: Vec<String> },
}

#[verifier::ext_equal]
pub enum CleanupView {
    Refused(Seq<char>),
    OnNode(Seq<char>, Seq<Seq<char>>),
}

impl View for Cleanup {
    type V = CleanupView;

    open spec fn view(&self) -> CleanupView {
        match self {
            Cleanup::Refused(line) => CleanupView::Refused(line@),
            Cleanup::OnNode { node, arguments } => CleanupView::OnNode(
                node@,
                texts(arguments@),
            ),
        }
    }
}

pub open spec fn pick_node(config: LoadedConfig, run_id: Seq<char>) -> spec_fn(NodeConfig) -> Option<
    CleanupView,
> {
    |node: NodeConfig|
        if node.rule_side {
            None
        } else {
            Some(CleanupView::OnNode(node.name@, cleanup_arguments(config, node, run_id)))
        }
}

/// What is done about one run, where it is known whether its id is one.
pub open spec fn steps_for(config: LoadedConfig, run_id: Seq<char>, valid: bool) -> Seq<CleanupView> {
    if valid {
        picked(config.config.nodes@, pick_node(config, run_id))
    } else {
        seq![CleanupView::Refused("! refusing cleanup for invalid run ID "@ + run_id)]
    }
}

/// Plans the cleanup after one run, where it is known whether its id is one.
pub fn plan_cleanup(config: &LoadedConfig, run_id: &str, valid: bool) -> (r: Vec<Cleanup>)
    ensures
        value_views(r@) == steps_for(*config, run_id@, valid),
{
    let mut out: Vec<Cleanup> = Vec::new();
    assert(value_views(out@) == Seq::<CleanupView>::empty());
    if !valid {
        let step = Cleanup::Refused(glue2("! refusing cleanup for invalid run ID ", run_id));
        let ghost added = step@;
        out.push(step);
        assert(value_views(out@) == seq![added]);
        return out;
    }
    let nodes = &config.config.nodes;
    let ghost pick = pick_node(*config, run_id@);
    let mut i: usize = 0;
    assert(nodes@.take(0) == Seq::<NodeConfig>::empty());
    while i < nodes.len()
        invariant
            i <= nodes@.len(),
            nodes@ == config.config.nodes@,
            pick == pick_node(*config, run_id@),
            value_views(out@) == picked(nodes@.take(i as int), pick),
        decreases nodes.len() - i,
    {
        proof {
            assert(nodes@.take(i + 1).drop_last() == nodes@.take(i as int));
            assert(nodes@.take(i + 1).last() == nodes@[i as int]);
        }
        if !nodes[i].rule_side {
            let ghost was = out@;
            let step = Cleanup::OnNode {
                node: nodes[i].name.clone(),
                arguments: cleanup_node(config, &nodes[i], run_id),
            };
            let ghost added = step@;
            out.push(step);
            assert(value_views(out@) == value_views(was).push(added));
        }
        i += 1;
    }
    assert(nodes@.take(i as int) == nodes@);
    out
}

/// What is done about each of some runs.
pub open spec fn steps_of(config: LoadedConfig) -> spec_fn(Seq<char>) -> Seq<CleanupView> {
    |run_id: Seq<char>| steps_for(config, run_id, is_uuid(run_id))
}

/// Plans the cleanup after abandoned runs, in their order.
pub fn cleanup_abandoned(config: &LoadedConfig, run_ids: &Vec<String>) -> (r: Vec<Cleanup>)
    ensures
        value_views(r@) == chain(texts(run_ids@).map_values(steps_of(*config))),
{
    let ghost all = texts(run_ids@).map_values(steps_of(*config));
    let mut out: Vec<Cleanup> = Vec::new();
    let mut i: usize = 0;
    assert(all.take(0) == Seq::<Seq<CleanupView>>::empty());
    assert(value_views(out@) == chain(all.take(0)));
    while i < run_ids.len()
        invariant
            i <= run_ids@.len(),
            all == texts(run_ids@).map_values(steps_of(*config)),
            value_views(out@) == chain(all.take(i as int)),
        decreases run_ids.len() - i,
    {
        let id = run_ids[i].as_str();
        let mut steps = plan_cleanup(config, id, parses_as_uuid(id));
        proof {
            assert(texts(run_ids@)[i as int] == id@);
            assert(all[i as int] == value_views(steps@));
            assert(all.take(i + 1).drop_last() == all.take(i as int));
            assert(all.take(i + 1).last() == all[i as int]);
        }
        let ghost was = out@;
        let ghost added = steps@;
        out.append(&mut steps);
        assert(value_views(out@) == value_views(was) + value_views(added));
        i += 1;
    }
    assert(all.take(i as int) == all);
    out
}

/// What is said of a node that could not be cleaned up.
pub fn cleanup_failed(node: &str, error: &str) -> (r: String)
    ensures
        r@ == "! abandoned cleanup failed on "@ + node@ + ": "@ + error@,
{
    let head = glue3("! abandoned cleanup failed on ", node, ": ");
    glue2(head.as_str(), error)
}

/// The nodes of the benchmark are not touched, and every other one is, for a run with a valid id.
pub proof fn only_observed_nodes_are_cleaned(config: LoadedConfig, run_id: Seq<char>, i: int)
    requires
        0 <= i < config.config.nodes@.len(),
    ensures
        pick_node(config, run_id)(config.config.nodes@[i]) is None
            <==> config.config.nodes@[i].rule_side,
{
}

} // verus!
