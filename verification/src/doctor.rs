//! The check of a project before its first benchmark.
use crate::collector::{login, login_text, share_text, shares};
use crate::config::{
    first_flagged, push_text, resolve, BenchmarkConfig, BenchmarkMode, CollectorConfig, DiskConfig,
    LoadedConfig, NodeConfig, Transport,
};
use crate::join::value_views;
use crate::node_disk::{
    describe, description, emptiest, emptiest_is_one, level_of, tightest_of, DiskLevel, NodeDisk,
};
use crate::number::{apply, arithmetic, is_arithmetic, Number, Op};
use crate::numeral::{is_writer, write_number, written};
use crate::paths::{components, components_of, join_path, joined_path};
use crate::perf::{file_name, name_of_file};
use crate::protocol::picked;
use crate::report::text_option;
use crate::text::{
    chars_of, contains_text, decimal, decimal_of, ends, ends_with, find_at, find_is_first, glue2,
    glue3, glue5, last_halves, lines, lines_of, lossy_text, parsed_signed, same, signed_number,
    split_last, string_of, text_from_lossy, texts, trim, trimmed, views, words, words_of,
};
use vstd::prelude::*;

verus! {

/// What one check found.
#[derive(Clone, Debug)]
pub enum Finding {
    Pass(String),
    Warn(String),
    Fail(String),
}

#[verifier::ext_equal]
pub enum FindingView {
    Pass(Seq<char>),
    Warn(Seq<char>),
    Fail(Seq<char>),
}

impl View for Finding {
    type V = FindingView;

    open spec fn view(&self) -> FindingView {
        match self {
            Finding::Pass(text) => FindingView::Pass(text@),
            Finding::Warn(text) => FindingView::Warn(text@),
            Finding::Fail(text) => FindingView::Fail(text@),
        }
    }
}

/// What all the checks found.
#[derive(Debug)]
pub struct DoctorReport {
    pub passed: usize,
    pub warnings: Vec<String>,
    pub failures: Vec<String>,
}

impl Default for DoctorReport {
    fn default() -> (r: DoctorReport)
        ensures
            r.passed == 0,
            r.warnings@.len() == 0,
            r.failures@.len() == 0,
    {
        DoctorReport { passed: 0, warnings: Vec::new(), failures: Vec::new() }
    }
}

impl DoctorReport {
    /// Takes a finding in, and gives the line that is shown of it.
    pub fn record(&mut self, finding: Finding) -> (r: String)
        requires
            old(self).passed < usize::MAX,
        ensures
            match finding@ {
                FindingView::Pass(text) => {
                    &&& final(self).passed == old(self).passed + 1
                    &&& final(self).warnings@ == old(self).warnings@
                    &&& final(self).failures@ == old(self).failures@
                    &&& r@ == "✓ "@ + text
                },
                FindingView::Warn(text) => {
                    &&& final(self).passed == old(self).passed
                    &&& texts(final(self).warnings@) == texts(old(self).warnings@).push(text)
                    &&& final(self).failures@ == old(self).failures@
                    &&& r@ == "! "@ + text
                },
                FindingView::Fail(text) => {
                    &&& final(self).passed == old(self).passed
                    &&& final(self).warnings@ == old(self).warnings@
                    &&& texts(final(self).failures@) == texts(old(self).failures@).push(text)
                    &&& r@ == "✗ "@ + text
                },
            },
    {
        match finding {
            Finding::Pass(text) => {
                self.passed += 1;
                glue2("✓ ", text.as_str())
            },
            Finding::Warn(text) => {
                push_text(&mut self.warnings, text.as_str());
                glue2("! ", text.as_str())
            },
            Finding::Fail(text) => {
                push_text(&mut self.failures, text.as_str());
                glue2("✗ ", text.as_str())
            },
        }
    }

    /// A project with no failure is ready; warnings do not keep it back.
    pub fn healthy(&self) -> (r: bool)
        ensures
            r == (self.failures@.len() == 0),
    {
        self.failures.len() == 0
    }
}

/// The configuration could be read.
pub fn check_config(config: &LoadedConfig) -> (r: Finding)
    ensures
        r@ == FindingView::Pass("config "@ + config.config_path@),
{
    Finding::Pass(glue2("config ", config.config_path.as_str()))
}

/// The data directory can be written to, or why not.
pub fn check_data_dir(path: &str, error: Option<&str>) -> (r: Finding)
    ensures
        r@ == (match error {
            None => FindingView::Pass("data directory writable: "@ + path@),
            Some(reason) => FindingView::Fail(
                "data directory is not writable ("@ + path@ + "): "@ + reason@,
            ),
        }),
{
    match error {
        None => Finding::Pass(glue2("data directory writable: ", path)),
        Some(reason) => {
            let head = glue3("data directory is not writable (", path, "): ");
            Finding::Fail(glue2(head.as_str(), reason))
        },
    }
}

/// Below this many bytes the room for data is short.
pub const SHORT_OF_SPACE: u64 = 1_073_741_824;

pub open spec fn in_mebibytes(f: spec_fn(Op) -> Number, bytes: u64) -> Number {
    f(
        Op::Divide(
            f(Op::Divide(f(Op::Natural(bytes)), f(Op::Natural(1024)))),
            f(Op::Natural(1024)),
        ),
    )
}

/// What is said of the room that is left for data.
pub open spec fn space_finding(
    f: spec_fn(Op) -> Number,
    g: spec_fn(Number, u32) -> Seq<char>,
    free: Result<u64, Seq<char>>,
) -> FindingView {
    match free {
        Ok(bytes) => if bytes < SHORT_OF_SPACE {
            FindingView::Warn(
                "data filesystem has only "@ + g(in_mebibytes(f, bytes), 1) + " MiB free"@,
            )
        } else {
            FindingView::Pass(
                "data filesystem free space: "@ + g(
                    f(Op::Divide(in_mebibytes(f, bytes), f(Op::Natural(1024)))),
                    1,
                ) + " GiB"@,
            )
        },
        Err(error) => FindingView::Warn("cannot determine free disk space: "@ + error),
    }
}

pub fn check_space<F: Fn(Op) -> Number, S: Fn(Number, u32) -> String>(
    free: Result<u64, &str>,
    compute: &F,
    show: &S,
) -> (r: Finding)
    requires
        is_arithmetic(*compute),
        is_writer(*show),
    ensures
        r@ == space_finding(
            arithmetic(*compute),
            written(*show),
            match free {
                Ok(bytes) => Ok::<u64, Seq<char>>(bytes),
                Err(error) => Err::<u64, Seq<char>>(error@),
            },
        ),
{
    match free {
        Ok(bytes) => {
            let unit = apply(compute, Op::Natural(1024));
            let size = apply(compute, Op::Natural(bytes));
            let kib = apply(compute, Op::Divide(size, unit));
            let mib = apply(compute, Op::Divide(kib, unit));
            if bytes < SHORT_OF_SPACE {
                let text = write_number(show, mib, 1);
                Finding::Warn(glue3("data filesystem has only ", text.as_str(), " MiB free"))
            } else {
                let gib = apply(compute, Op::Divide(mib, unit));
                let text = write_number(show, gib, 1);
                Finding::Pass(glue3("data filesystem free space: ", text.as_str(), " GiB"))
            }
        },
        Err(error) => Finding::Warn(glue2("cannot determine free disk space: ", error)),
    }
}

/// The extension of a path: what follows the last dot of its file name, where something stands
/// before the dot.
pub open spec fn extension(path: Seq<char>) -> Option<Seq<char>> {
    match file_name(path) {
        Some(name) => match split_last(name, '.') {
            Some((stem, rest)) => if stem.len() == 0 {
                None
            } else {
                Some(rest)
            },
            None => None,
        },
        None => None,
    }
}

/// Tells a shell script by its path.
pub fn is_script(path: &str) -> (r: bool)
    ensures
        r == (extension(path@) == Some("sh"@)),
{
    match name_of_file(chars_of(path).as_slice()) {
        Some(name) => match last_halves(name.as_slice(), '.') {
            Some((stem, rest)) => if stem.len() == 0 {
                false
            } else {
                same(string_of(rest.as_slice()).as_str(), "sh")
            },
            None => false,
        },
        None => false,
    }
}

fn holds(s: &[char], word: &str) -> (r: bool)
    ensures
        r == contains_text(s@, word@),
{
    proof {
        find_is_first(s@, word@, 0);
    }
    find_at(s, chars_of(word).as_slice(), 0).is_some()
}

/// The shell that a script is written for, by its first line.
pub open spec fn shell_of(text: Option<Seq<char>>) -> Seq<char> {
    match text {
        Some(script) => if lines(script).len() > 0 && contains_text(lines(script)[0], "bash"@) {
            "bash"@
        } else {
            "sh"@
        },
        None => "sh"@,
    }
}

pub fn shell_for(text: Option<&str>) -> (r: &'static str)
    ensures
        r@ == shell_of(
            match text {
                Some(script) => Some(script@),
                None => None,
            },
        ),
{
    match text {
        Some(script) => {
            let all = lines_of(chars_of(script).as_slice());
            assert(views(all@).len() == all@.len());
            if all.len() == 0 {
                return "sh";
            }
            assert(views(all@)[0] == all@[0]@);
            if holds(all[0].as_slice(), "bash") {
                "bash"
            } else {
                "sh"
            }
        },
        None => "sh",
    }
}

/// What a shell says of a script.
#[derive(Debug)]
pub enum SyntaxCheck {
    Passed,
    Failed(Vec<u8>),
    NotRun(String),
}

/// What was found of a file that runs are to keep.
#[derive(Debug)]
pub enum FileState {
    Missing,
    Unreadable,
    Readable,
    Script(SyntaxCheck),
}

pub open spec fn file_finding(path: Seq<char>, state: FileState) -> FindingView {
    match state {
        FileState::Missing => FindingView::Fail("tooling include is missing: "@ + path),
        FileState::Unreadable => FindingView::Fail("tooling include is not readable: "@ + path),
        FileState::Readable => FindingView::Pass("tooling include readable: "@ + path),
        FileState::Script(check) => match check {
            SyntaxCheck::Passed => FindingView::Pass("shell syntax: "@ + path),
            SyntaxCheck::Failed(stderr) => FindingView::Fail(
                "shell syntax error in "@ + path + ": "@ + trim(lossy_text(stderr@)),
            ),
            SyntaxCheck::NotRun(error) => FindingView::Fail(
                "cannot check shell syntax for "@ + path + ": "@ + error@,
            ),
        },
    }
}

fn trimmed_bytes(bytes: &[u8]) -> (r: String)
    ensures
        r@ == trim(lossy_text(bytes@)),
{
    let text = text_from_lossy(bytes);
    string_of(trimmed(chars_of(text.as_str()).as_slice()).as_slice())
}

fn after_colon(head: &str, middle: &str, tail: &str) -> (r: String)
    ensures
        r@ == head@ + middle@ + ": "@ + tail@,
{
    let start = glue3(head, middle, ": ");
    glue2(start.as_str(), tail)
}

pub fn check_tooling(path: &str, state: &FileState) -> (r: Finding)
    ensures
        r@ == file_finding(path@, *state),
{
    match state {
        FileState::Missing => Finding::Fail(glue2("tooling include is missing: ", path)),
        FileState::Unreadable => Finding::Fail(glue2("tooling include is not readable: ", path)),
        FileState::Readable => Finding::Pass(glue2("tooling include readable: ", path)),
        FileState::Script(check) => match check {
            SyntaxCheck::Passed => Finding::Pass(glue2("shell syntax: ", path)),
            SyntaxCheck::Failed(stderr) => {
                let reason = trimmed_bytes(stderr.as_slice());
                Finding::Fail(after_colon("shell syntax error in ", path, reason.as_str()))
            },
            SyntaxCheck::NotRun(error) => Finding::Fail(
                after_colon("cannot check shell syntax for ", path, error.as_str()),
            ),
        },
    }
}

/// A program that the project starts here.
#[derive(Debug)]
pub struct CommandCheck {
    pub label: String,
    pub program: String,
    pub working_dir: String,
}

#[verifier::ext_equal]
pub struct CommandView {
    pub label: Seq<char>,
    pub program: Seq<char>,
    pub working_dir: Seq<char>,
}

impl View for CommandCheck {
    type V = CommandView;

    open spec fn view(&self) -> CommandView {
        CommandView {
            label: self.label@,
            program: self.program@,
            working_dir: self.working_dir@,
        }
    }
}

/// The program of a command, where it names one.
pub open spec fn own_command(label: Seq<char>, command: Seq<String>, dir: Seq<char>) -> Option<
    CommandView,
> {
    if command.len() == 0 {
        None
    } else {
        Some(CommandView { label, program: command[0]@, working_dir: dir })
    }
}

pub open spec fn benchmark_command(config: LoadedConfig, dir: Seq<char>) -> Seq<CommandView> {
    if config.config.benchmark.mode == BenchmarkMode::Command {
        match own_command("benchmark"@, config.config.benchmark.command@, dir) {
            Some(c) => seq![c],
            None => Seq::empty(),
        }
    } else {
        Seq::empty()
    }
}

pub open spec fn pick_parser_command(root: Seq<char>) -> spec_fn(
    crate::config::BenchmarkParserConfig,
) -> Option<CommandView> {
    |p: crate::config::BenchmarkParserConfig|
        own_command("benchmark parser `"@ + p.name@ + "`"@, p.command@, root)
}

pub open spec fn pick_local_command(root: Seq<char>) -> spec_fn(CollectorConfig) -> Option<
    CommandView,
> {
    |c: CollectorConfig|
        if c.transport == Transport::Local {
            own_command("local collector `"@ + c.name@ + "`"@, c.command@, root)
        } else {
            None
        }
}

/// The programs that the project starts here: the benchmark, its parsers and the local collectors.
pub open spec fn own_commands(config: LoadedConfig, benchmark_dir: Seq<char>) -> Seq<CommandView> {
    benchmark_command(config, benchmark_dir) + picked(
        config.config.benchmark.parsers@,
        pick_parser_command(config.project_root@),
    ) + picked(config.config.collectors@, pick_local_command(config.project_root@))
}

fn make_check(label: String, command: &Vec<String>, dir: &str) -> (r: Option<CommandCheck>)
    ensures
        match r {
            Some(c) => own_command(label@, command@, dir@) == Some(c@),
            None => own_command(label@, command@, dir@) is None,
        },
{
    if command.len() == 0 {
        None
    } else {
        Some(CommandCheck { label, program: command[0].clone(), working_dir: dir.to_owned() })
    }
}

fn add_check(out: &mut Vec<CommandCheck>, check: Option<CommandCheck>)
    ensures
        value_views(final(out)@) == value_views(old(out)@) + (match check {
            Some(c) => seq![c@],
            None => Seq::empty(),
        }),
{
    let ghost was = out@;
    match check {
        Some(c) => {
            let ghost added = c@;
            out.push(c);
            assert(value_views(out@) == value_views(was) + seq![added]);
        },
        None => {
            assert(value_views(was) + Seq::<CommandView>::empty() == value_views(was));
        },
    }
}

pub fn check_commands(config: &LoadedConfig, benchmark_dir: &str) -> (r: Vec<CommandCheck>)
    ensures
        value_views(r@) == own_commands(*config, benchmark_dir@),
{
    let root = config.project_root.as_str();
    let mut out: Vec<CommandCheck> = Vec::new();
    assert(value_views(out@) == Seq::<CommandView>::empty());
    match config.config.benchmark.mode {
        BenchmarkMode::Command => {
            let check = make_check(
                "benchmark".to_owned(),
                &config.config.benchmark.command,
                benchmark_dir,
            );
            add_check(&mut out, check);
        },
        _ => {},
    }
    let ghost first = value_views(out@);
    assert(first == benchmark_command(*config, benchmark_dir@));
    let parsers = &config.config.benchmark.parsers;
    let ghost pick = pick_parser_command(root@);
    let mut i: usize = 0;
    assert(parsers@.take(0) == Seq::<crate::config::BenchmarkParserConfig>::empty());
    assert(first + picked(parsers@.take(0), pick) == first);
    while i < parsers.len()
        invariant
            i <= parsers@.len(),
            pick == pick_parser_command(root@),
            value_views(out@) == first + picked(parsers@.take(i as int), pick),
        decreases parsers.len() - i,
    {
        let ghost head = picked(parsers@.take(i as int), pick);
        proof {
            assert(parsers@.take(i + 1).drop_last() == parsers@.take(i as int));
            assert(parsers@.take(i + 1).last() == parsers@[i as int]);
        }
        let label = glue3("benchmark parser `", parsers[i].name.as_str(), "`");
        let check = make_check(label, &parsers[i].command, root);
        add_check(&mut out, check);
        assert(value_views(out@) == first + picked(parsers@.take(i + 1), pick));
        i += 1;
    }
    assert(parsers@.take(i as int) == parsers@);
    let ghost second = value_views(out@);
    let collectors = &config.config.collectors;
    let ghost local = pick_local_command(root@);
    let mut k: usize = 0;
    assert(collectors@.take(0) == Seq::<CollectorConfig>::empty());
    assert(second + picked(collectors@.take(0), local) == second);
    while k < collectors.len()
        invariant
            k <= collectors@.len(),
            local == pick_local_command(root@),
            value_views(out@) == second + picked(collectors@.take(k as int), local),
        decreases collectors.len() - k,
    {
        proof {
            assert(collectors@.take(k + 1).drop_last() == collectors@.take(k as int));
            assert(collectors@.take(k + 1).last() == collectors@[k as int]);
        }
        match collectors[k].transport {
            Transport::Local => {
                let label = glue3("local collector `", collectors[k].name.as_str(), "`");
                let check = make_check(label, &collectors[k].command, root);
                add_check(&mut out, check);
            },
            Transport::Ssh => {},
        }
        assert(value_views(out@) == second + picked(collectors@.take(k + 1), local));
        k += 1;
    }
    assert(collectors@.take(k as int) == collectors@);
    out
}

/// What is said of a program.
pub fn check_program(label: &str, program: &str, found: bool) -> (r: Finding)
    ensures
        r@ == (if found {
            FindingView::Pass(label@ + " command: "@ + program@)
        } else {
            FindingView::Fail(
                label@ + " command was not found or is not executable: "@ + program@,
            )
        }),
{
    if found {
        Finding::Pass(glue3(label, " command: ", program))
    } else {
        Finding::Fail(glue3(label, " command was not found or is not executable: ", program))
    }
}

/// Where a program may be: at its path, seen from the working directory, or by its name alone in
/// the directories of the search path.
pub open spec fn program_places(
    program: Seq<char>,
    working_dir: Seq<char>,
    search: Seq<Seq<char>>,
) -> Seq<Seq<char>> {
    if components(program).len() > 1 {
        seq![join_path(working_dir, program)]
    } else {
        search.map_values(|dir: Seq<char>| join_path(dir, program))
    }
}

pub fn places_of(program: &str, working_dir: &str, search: &Vec<String>) -> (r: Vec<String>)
    ensures
        texts(r@) == program_places(program@, working_dir@, texts(search@)),
{
    let mut out: Vec<String> = Vec::new();
    assert(texts(out@) == Seq::<Seq<char>>::empty());
    let parts = components_of(program);
    assert(views(parts@).len() == parts@.len());
    if parts.len() > 1 {
        let path = joined_path(working_dir, program);
        push_text(&mut out, path.as_str());
        assert(texts(out@) == seq![path@]);
        return out;
    }
    let ghost all = texts(search@).map_values(|dir: Seq<char>| join_path(dir, program@));
    let mut i: usize = 0;
    assert(texts(out@) == all.take(0));
    while i < search.len()
        invariant
            i <= search@.len(),
            all == texts(search@).map_values(|dir: Seq<char>| join_path(dir, program@)),
            texts(out@) == all.take(i as int),
        decreases search.len() - i,
    {
        let path = joined_path(search[i].as_str(), program);
        assert(all[i as int] == path@);
        push_text(&mut out, path.as_str());
        assert(all.take(i + 1) == all.take(i as int).push(all[i as int]));
        i += 1;
    }
    assert(all.take(i as int) == all);
    out
}

/// The first of the places that holds an executable file.
pub fn find_program(places: &Vec<String>, executable: &Vec<bool>) -> (r: Option<String>)
    ensures
        text_option(r) == first_flagged(texts(places@), executable@),
{
    let ghost all = texts(places@);
    let mut i: usize = 0;
    assert(all.skip(0) == all);
    assert(executable@.skip(0) == executable@);
    while i < places.len() && i < executable.len()
        invariant
            i <= places@.len(),
            i <= executable@.len(),
            all == texts(places@),
            first_flagged(all, executable@) == first_flagged(
                all.skip(i as int),
                executable@.skip(i as int),
            ),
        decreases places.len() - i,
    {
        assert(all.skip(i as int)[0] == places@[i as int]@);
        assert(executable@.skip(i as int)[0] == executable@[i as int]);
        if executable[i] {
            return Some(places[i].clone());
        }
        assert(all.skip(i as int).skip(1) == all.skip(i + 1));
        assert(executable@.skip(i as int).skip(1) == executable@.skip(i + 1));
        i += 1;
    }
    None
}

/// What is said of the key for `ssh`, where one is configured.
pub open spec fn identity_finding(config: LoadedConfig, is_file: bool) -> Option<FindingView> {
    match config.config.ssh.identity_file {
        Some(identity) => {
            let path = join_path(config.project_root@, identity@);
            Some(
                if is_file {
                    FindingView::Pass("SSH identity: "@ + path)
                } else {
                    FindingView::Fail("SSH identity is missing: "@ + path)
                },
            )
        },
        None => None,
    }
}

pub open spec fn finding_option(f: Option<Finding>) -> Option<FindingView> {
    match f {
        Some(finding) => Some(finding@),
        None => None,
    }
}

pub fn check_identity(config: &LoadedConfig, is_file: bool) -> (r: Option<Finding>)
    ensures
        finding_option(r) == identity_finding(*config, is_file),
{
    match &config.config.ssh.identity_file {
        Some(identity) => {
            let path = resolve(config.project_root.as_str(), identity.as_str());
            if is_file {
                Some(Finding::Pass(glue2("SSH identity: ", path.as_str())))
            } else {
                Some(Finding::Fail(glue2("SSH identity is missing: ", path.as_str())))
            }
        },
        None => None,
    }
}

/// What keeps the nodes from being checked at all.
pub fn check_reach(config: &LoadedConfig, has_ssh: bool) -> (r: Option<Finding>)
    ensures
        finding_option(r) == (if config.config.nodes@.len() == 0 {
            Some(FindingView::Warn("no SSH nodes are configured"@))
        } else if !has_ssh {
            Some(FindingView::Fail("ssh command was not found"@))
        } else {
            None
        }),
{
    if config.config.nodes.len() == 0 {
        Some(Finding::Warn("no SSH nodes are configured".to_owned()))
    } else if !has_ssh {
        Some(Finding::Fail("ssh command was not found".to_owned()))
    } else {
        None
    }
}

/// The arguments of `ssh` that ask a node for the time.
pub fn clock_arguments(config: &LoadedConfig, node: &NodeConfig) -> (r: Vec<String>)
    ensures
        texts(r@) == config.ssh_arguments() + seq![
            login(*config, *node),
            "--"@,
            "date"@,
            "+%s"@,
        ],
{
    let mut out = config.ssh_options();
    let ghost start = texts(out@);
    let target = login_text(config, node);
    push_text(&mut out, target.as_str());
    push_text(&mut out, "--");
    push_text(&mut out, "date");
    push_text(&mut out, "+%s");
    assert(start.push(target@).push("--"@).push("date"@).push("+%s"@) == start + seq![
        target@,
        "--"@,
        "date"@,
        "+%s"@,
    ]);
    out
}

/// The arguments of `ssh` that try `sudo` on a node.
pub fn sudo_arguments(config: &LoadedConfig, node: &NodeConfig) -> (r: Vec<String>)
    ensures
        texts(r@) == config.ssh_arguments() + seq![
            login(*config, *node),
            "--"@,
            "sudo"@,
            "-n"@,
            "true"@,
        ],
{
    let mut out = config.ssh_options();
    let ghost start = texts(out@);
    let target = login_text(config, node);
    push_text(&mut out, target.as_str());
    push_text(&mut out, "--");
    push_text(&mut out, "sudo");
    push_text(&mut out, "-n");
    push_text(&mut out, "true");
    assert(start.push(target@).push("--"@).push("sudo"@).push("-n"@).push("true"@) == start + seq![
        target@,
        "--"@,
        "sudo"@,
        "-n"@,
        "true"@,
    ]);
    out
}

/// How a command on a node ended.
#[derive(Debug)]
pub enum Reply {
    Ended { success: bool, stdout: Vec<u8>, stderr: Vec<u8> },
    NotRun(String),
    TimedOut,
}

/// The time that a node told, where it did.
pub open spec fn told_time(reply: Reply) -> Option<int> {
    match reply {
        Reply::Ended { success, stdout, .. } => if success {
            parsed_signed(trim(lossy_text(stdout@)))
        } else {
            None
        },
        _ => None,
    }
}

pub open spec fn distance(a: int, b: int) -> nat {
    if a >= b {
        (a - b) as nat
    } else {
        (b - a) as nat
    }
}

/// Two seconds are as far as clocks may differ.
pub const SKEW: u64 = 2;

/// What is said of a node that was asked for the time.
pub open spec fn clock_finding(target: Seq<char>, reply: Reply, now: int) -> FindingView {
    match reply {
        Reply::Ended { success, stdout, stderr } => if success {
            match told_time(reply) {
                Some(remote) => {
                    let skew = distance(now, remote);
                    if skew > SKEW {
                        FindingView::Warn(
                            "SSH "@ + target + ": clock differs by "@ + decimal(skew) + "s"@,
                        )
                    } else {
                        FindingView::Pass(
                            "SSH "@ + target + ": connected, clock skew "@ + decimal(skew) + "s"@,
                        )
                    }
                },
                None => FindingView::Fail("SSH "@ + target + ": invalid clock response"@),
            }
        } else {
            FindingView::Fail("SSH "@ + target + " failed: "@ + trim(lossy_text(stderr@)))
        },
        Reply::NotRun(error) => FindingView::Fail("SSH "@ + target + " failed: "@ + error@),
        Reply::TimedOut => FindingView::Fail("SSH "@ + target + " timed out"@),
    }
}

fn apart(a: i64, b: i64) -> (r: u64)
    ensures
        r == distance(a as int, b as int),
{
    if a >= b {
        (a as i128 - b as i128) as u64
    } else {
        (b as i128 - a as i128) as u64
    }
}

/// Reads what a node answered. The second value says whether it told the time.
pub fn check_clock(target: &str, reply: &Reply, now: i64) -> (r: (Finding, bool))
    ensures
        r.0@ == clock_finding(target@, *reply, now as int),
        r.1 == (told_time(*reply) is Some),
{
    match reply {
        Reply::Ended { success, stdout, stderr } => {
            if !*success {
                let head = glue3("SSH ", target, " failed: ");
                let reason = trimmed_bytes(stderr.as_slice());
                return (Finding::Fail(glue2(head.as_str(), reason.as_str())), false);
            }
            let text = trimmed_bytes(stdout.as_slice());
            match signed_number(chars_of(text.as_str()).as_slice()) {
                Some(remote) => {
                    let skew = apart(now, remote);
                    let seconds = string_of(decimal_of(skew).as_slice());
                    if skew > SKEW {
                        (
                            Finding::Warn(
                                glue5("SSH ", target, ": clock differs by ", seconds.as_str(), "s"),
                            ),
                            true,
                        )
                    } else {
                        (
                            Finding::Pass(
                                glue5(
                                    "SSH ",
                                    target,
                                    ": connected, clock skew ",
                                    seconds.as_str(),
                                    "s",
                                ),
                            ),
                            true,
                        )
                    }
                },
                None => (Finding::Fail(glue3("SSH ", target, ": invalid clock response")), false),
            }
        },
        Reply::NotRun(error) => {
            let head = glue3("SSH ", target, " failed: ");
            (Finding::Fail(glue2(head.as_str(), error.as_str())), false)
        },
        Reply::TimedOut => (Finding::Fail(glue3("SSH ", target, " timed out")), false),
    }
}

/// What is said of a node on which `sudo` was tried.
pub open spec fn sudo_finding(target: Seq<char>, reply: Reply) -> FindingView {
    match reply {
        Reply::Ended { success, stdout, stderr } => if success {
            FindingView::Pass("SSH "@ + target + ": non-interactive sudo"@)
        } else {
            FindingView::Fail(
                "SSH "@ + target + ": non-interactive sudo failed: "@ + trim(lossy_text(stderr@)),
            )
        },
        Reply::NotRun(error) => FindingView::Fail(
            "SSH "@ + target + ": sudo check failed: "@ + error@,
        ),
        Reply::TimedOut => FindingView::Fail("SSH "@ + target + ": sudo check timed out"@),
    }
}

pub fn check_sudo(target: &str, reply: &Reply) -> (r: Finding)
    ensures
        r@ == sudo_finding(target@, *reply),
{
    match reply {
        Reply::Ended { success, stdout: _, stderr } => if *success {
            Finding::Pass(glue3("SSH ", target, ": non-interactive sudo"))
        } else {
            let head = glue3("SSH ", target, ": non-interactive sudo failed: ");
            let reason = trimmed_bytes(stderr.as_slice());
            Finding::Fail(glue2(head.as_str(), reason.as_str()))
        },
        Reply::NotRun(error) => {
            let head = glue3("SSH ", target, ": sudo check failed: ");
            Finding::Fail(glue2(head.as_str(), error.as_str()))
        },
        Reply::TimedOut => Finding::Fail(glue3("SSH ", target, ": sudo check timed out")),
    }
}

/// A word that calls `sudo`.
pub open spec fn is_sudo(word: Seq<char>) -> bool {
    word == "sudo"@ || ends(word, "/sudo"@)
}

pub open spec fn has_sudo(argument: Seq<char>) -> bool {
    exists|i: int| 0 <= i < words(argument).len() && is_sudo(#[trigger] words(argument)[i])
}

/// A collector that needs `sudo` on a node.
pub open spec fn needs_sudo(collector: CollectorConfig, node: NodeConfig) -> bool {
    &&& collector.transport == Transport::Ssh
    &&& collector.roles@.len() == 0 || share_text(texts(collector.roles@), texts(node.roles@))
    &&& exists|i: int|
        0 <= i < collector.command@.len() && has_sudo(#[trigger] collector.command@[i]@)
}

fn calls_sudo(argument: &str) -> (r: bool)
    ensures
        r == has_sudo(argument@),
{
    let all = words_of(chars_of(argument).as_slice());
    let sudo = chars_of("sudo");
    let tail = chars_of("/sudo");
    let mut i: usize = 0;
    assert(views(all@).len() == all@.len());
    while i < all.len()
        invariant
            i <= all@.len(),
            views(all@) == words(argument@),
            sudo@ == "sudo"@,
            tail@ == "/sudo"@,
            forall|j: int| 0 <= j < i ==> !is_sudo(#[trigger] words(argument@)[j]),
        decreases all.len() - i,
    {
        let word = all[i].as_slice();
        assert(words(argument@)[i as int] == word@);
        if crate::text::same_chars(word, sudo.as_slice()) || ends_with(word, tail.as_slice()) {
            return true;
        }
        i += 1;
    }
    false
}

fn collector_needs_sudo(collector: &CollectorConfig, node: &NodeConfig) -> (r: bool)
    ensures
        r == needs_sudo(*collector, *node),
{
    match collector.transport {
        Transport::Local => {
            return false;
        },
        Transport::Ssh => {},
    }
    if collector.roles.len() > 0 && !shares(&collector.roles, &node.roles) {
        return false;
    }
    let mut i: usize = 0;
    while i < collector.command.len()
        invariant
            i <= collector.command@.len(),
            collector.transport == Transport::Ssh,
            collector.roles@.len() == 0 || share_text(
                texts(collector.roles@),
                texts(node.roles@),
            ),
            forall|j: int| 0 <= j < i ==> !has_sudo(#[trigger] collector.command@[j]@),
        decreases collector.command.len() - i,
    {
        if calls_sudo(collector.command[i].as_str()) {
            return true;
        }
        i += 1;
    }
    false
}

/// Tells whether a collector needs `sudo` on a node.
pub fn node_requires_sudo(config: &LoadedConfig, node: &NodeConfig) -> (r: bool)
    ensures
        r == exists|i: int|
            0 <= i < config.config.collectors@.len() && needs_sudo(
                #[trigger] config.config.collectors@[i],
                *node,
            ),
{
    let collectors = &config.config.collectors;
    let mut i: usize = 0;
    while i < collectors.len()
        invariant
            i <= collectors@.len(),
            collectors@ == config.config.collectors@,
            forall|j: int| 0 <= j < i ==> !needs_sudo(#[trigger] collectors@[j], *node),
        decreases collectors.len() - i,
    {
        if collector_needs_sudo(&collectors[i], node) {
            return true;
        }
        i += 1;
    }
    false
}

/// What is said of an output of the benchmark that does not show the mark of a moment.
pub open spec fn marker_finding(text: Seq<char>, setting: Seq<char>, marker: Seq<char>) -> FindingView {
    if contains_text(text, marker) {
        FindingView::Pass("sample output contains "@ + setting)
    } else {
        FindingView::Warn(
            "sample output does not contain "@ + setting + " `"@ + marker
                + "`; initialization cannot be told from load"@,
        )
    }
}

/// Looks for the mark of a moment in an output of the benchmark.
pub fn check_marker(text: &str, setting: &str, marker: &str) -> (r: Finding)
    ensures
        r@ == marker_finding(text@, setting@, marker@),
{
    let chars = chars_of(text);
    if holds(chars.as_slice(), marker) {
        Finding::Pass(glue2("sample output contains ", setting))
    } else {
        let head = glue3("sample output does not contain ", setting, " `");
        Finding::Warn(
            glue3(head.as_str(), marker, "`; initialization cannot be told from load"),
        )
    }
}

/// What is said of the two marks that part initialization from load.
pub fn check_sample(config: &BenchmarkConfig, text: &str) -> (r: Vec<Finding>)
    ensures
        value_views(r@) == seq![
            marker_finding(
                text@,
                "initialize_start_marker"@,
                config.initialize_start_marker@,
            ),
            marker_finding(
                text@,
                "initialize_finish_marker"@,
                config.initialize_finish_marker@,
            ),
        ],
{
    let start = check_marker(
        text,
        "initialize_start_marker",
        config.initialize_start_marker.as_str(),
    );
    let finish = check_marker(
        text,
        "initialize_finish_marker",
        config.initialize_finish_marker.as_str(),
    );
    let mut out: Vec<Finding> = Vec::new();
    let ghost a = start@;
    let ghost b = finish@;
    out.push(start);
    out.push(finish);
    assert(value_views(out@) == seq![a, b]);
    out
}

/// What is said of a parser that was tried on an output of the benchmark: an error, lines that are
/// no records, or nothing read.
pub open spec fn parser_finding(
    name: Seq<char>,
    error: Option<Seq<char>>,
    invalid: nat,
    records: nat,
) -> FindingView {
    let head = "benchmark parser `"@ + name;
    match error {
        Some(reason) => FindingView::Fail(head + "` failed on the sample output: "@ + reason),
        None => if invalid > 0 {
            FindingView::Fail(
                head + "` wrote "@ + decimal(invalid) + " invalid lines for the sample output"@,
            )
        } else if records == 0 {
            FindingView::Warn(head + "` found nothing in the sample output"@)
        } else {
            FindingView::Pass(
                head + "` found "@ + decimal(records) + " records in the sample output"@,
            )
        },
    }
}

pub fn check_parser(name: &str, error: Option<&str>, invalid: usize, records: usize) -> (r: Finding)
    ensures
        r@ == parser_finding(
            name@,
            match error {
                Some(reason) => Some(reason@),
                None => None,
            },
            invalid as nat,
            records as nat,
        ),
{
    let head = glue2("benchmark parser `", name);
    match error {
        Some(reason) => Finding::Fail(
            glue3(head.as_str(), "` failed on the sample output: ", reason),
        ),
        None => if invalid > 0 {
            let count = string_of(decimal_of(invalid as u64).as_slice());
            let start = glue3(head.as_str(), "` wrote ", count.as_str());
            Finding::Fail(glue2(start.as_str(), " invalid lines for the sample output"))
        } else if records == 0 {
            Finding::Warn(glue2(head.as_str(), "` found nothing in the sample output"))
        } else {
            let count = string_of(decimal_of(records as u64).as_slice());
            let start = glue3(head.as_str(), "` found ", count.as_str());
            Finding::Pass(glue2(start.as_str(), " records in the sample output"))
        },
    }
}

/// What is said of the preflight of a collector at a place.
pub open spec fn preflight_finding(name: Seq<char>, place: Seq<char>, reply: Reply) -> FindingView {
    let head = "preflight of collector `"@ + name + "` on "@ + place;
    match reply {
        Reply::Ended { success, stdout, stderr } => if success {
            FindingView::Pass(head)
        } else {
            FindingView::Fail(head + " failed: "@ + trim(lossy_text(stderr@)))
        },
        Reply::NotRun(error) => FindingView::Fail(head + " failed: "@ + error@),
        Reply::TimedOut => FindingView::Fail(head + " timed out"@),
    }
}

pub fn check_preflight(name: &str, place: &str, reply: &Reply) -> (r: Finding)
    ensures
        r@ == preflight_finding(name@, place@, *reply),
{
    let start = glue3("preflight of collector `", name, "` on ");
    let head = glue2(start.as_str(), place);
    match reply {
        Reply::Ended { success, stdout: _, stderr } => if *success {
            Finding::Pass(head)
        } else {
            let reason = trimmed_bytes(stderr.as_slice());
            Finding::Fail(glue3(head.as_str(), " failed: ", reason.as_str()))
        },
        Reply::NotRun(error) => Finding::Fail(glue3(head.as_str(), " failed: ", error.as_str())),
        Reply::TimedOut => Finding::Fail(glue2(head.as_str(), " timed out")),
    }
}

/// What is said of the routes of the latest run: how many rules they suggest.
pub open spec fn routes_finding(id: Seq<char>, rules: nat) -> FindingView {
    if rules == 0 {
        FindingView::Pass("routes of run "@ + id + " are normalized"@)
    } else {
        FindingView::Warn(
            "routes of run "@ + id + " still contain dynamic ids ("@ + decimal(rules)
                + " candidate rules); run `isuscope routes suggest`"@,
        )
    }
}

pub fn check_routes(id: &str, rules: usize) -> (r: Finding)
    ensures
        r@ == routes_finding(id@, rules as nat),
{
    if rules == 0 {
        Finding::Pass(glue3("routes of run ", id, " are normalized"))
    } else {
        let count = string_of(decimal_of(rules as u64).as_slice());
        let head = glue3("routes of run ", id, " still contain dynamic ids (");
        Finding::Warn(
            glue3(
                head.as_str(),
                count.as_str(),
                " candidate rules); run `isuscope routes suggest`",
            ),
        )
    }
}

/// What is said of the disks of a node.
pub open spec fn disk_finding(
    f: spec_fn(Op) -> Number,
    g: spec_fn(Number, u32) -> Seq<char>,
    disk: DiskConfig,
    node: NodeDisk,
) -> FindingView {
    let head = "disk "@ + node.node@ + ": "@;
    match node.mounts {
        Ok(mounts) => if mounts@.len() == 0 {
            FindingView::Warn(head + "no mount was reported"@)
        } else {
            let mount = tightest_of(mounts@);
            let text = head + description(f, g, mount@);
            match level_of(
                mount.free_bytes as nat,
                disk.node_min_free_mb as nat,
                disk.node_warn_free_mb as nat,
            ) {
                DiskLevel::TooLow => FindingView::Fail(text),
                DiskLevel::Low => FindingView::Warn(text),
                DiskLevel::Enough => FindingView::Pass(text),
            }
        },
        Err(error) => FindingView::Warn(head + error@),
    }
}

pub fn check_disk<F: Fn(Op) -> Number, S: Fn(Number, u32) -> String>(
    node: &NodeDisk,
    disk: &DiskConfig,
    compute: &F,
    show: &S,
) -> (r: Finding)
    requires
        is_arithmetic(*compute),
        is_writer(*show),
    ensures
        r@ == disk_finding(arithmetic(*compute), written(*show), *disk, *node),
{
    let head = glue3("disk ", node.node.as_str(), ": ");
    match &node.mounts {
        Err(error) => Finding::Warn(glue2(head.as_str(), error.as_str())),
        Ok(mounts) => match node.tightest(disk) {
            None => Finding::Warn(glue2(head.as_str(), "no mount was reported")),
            Some((mount, level)) => {
                proof {
                    let i = choose|i: int| emptiest(mounts@, i) && mounts@[i] == *mount;
                    emptiest_is_one(mounts@, i);
                }
                let text = describe(mount, compute, show);
                let line = glue2(head.as_str(), text.as_str());
                match level {
                    DiskLevel::TooLow => Finding::Fail(line),
                    DiskLevel::Low => Finding::Warn(line),
                    DiskLevel::Enough => Finding::Pass(line),
                }
            },
        },
    }
}

/// A node on which nothing was told of the time is a failure, whatever else it answered.
pub proof fn silent_nodes_fail(target: Seq<char>, reply: Reply, now: int)
    requires
        told_time(reply) is None,
    ensures
        clock_finding(target, reply, now) is Fail,
{
}

} // verus!
