use isuscope::cleanup::{cleanup_abandoned, cleanup_failed, plan_cleanup, Cleanup};
use isuscope::collector::{
    expand, finalize, plan_phase, read_wait, selected, targets, Captured, CollectorOutput,
    CollectorWait, Ending, RunPlace, RunWindows,
};
use isuscope::config::{
    validate, BenchmarkConfig, BenchmarkMode, CollectorConfig, CollectorPhase, Config, ConfigError,
    ContextConfig, DiskConfig, LoadedConfig, NodeConfig, ObservabilityConfig, SourceConfig,
    SshConfig, ToolingConfig, Transport,
};
use isuscope::doctor::{
    check_clock, check_commands, check_data_dir, check_disk, check_identity, check_marker,
    check_parser, check_preflight, check_program, check_reach, check_routes, check_sample,
    check_space, check_sudo, check_tooling, clock_arguments, find_program, is_script,
    node_requires_sudo, places_of, shell_for, sudo_arguments, DoctorReport, FileState, Finding,
    Reply, SyntaxCheck,
};
use isuscope::labels::Labels;
use isuscope::model::{CollectorResult, RunMode};
use isuscope::node_disk::{
    check_disks, describe, df_arguments, fits_in_bytes, level, measured, parse_df, read_df,
    DiskLevel, MountFree, NodeDisk,
};
use isuscope::number::{Number, Op};
use isuscope::phase::{in_order, local_jobs, node_queues, Cap};
use isuscope::runner::{decide, unreachable_ssh_nodes, Decision};
use isuscope::shell::{quote_command, sanitize, shell_quote};
use isuscope::transition::{RouteNormalizer, RouteRules};

fn float(n: Number) -> f64 {
    f64::from_bits(n.bits)
}

fn number(x: f64) -> Number {
    Number { bits: x.to_bits() }
}

fn compute(op: Op) -> Number {
    number(match op {
        Op::Add(a, b) => float(a) + float(b),
        Op::Subtract(a, b) => float(a) - float(b),
        Op::Multiply(a, b) => float(a) * float(b),
        Op::Divide(a, b) => float(a) / float(b),
        Op::Round(a, places) => {
            let scale = 10f64.powi(places as i32);
            (float(a) * scale).round() / scale
        }
        Op::Integer(n) => n as f64,
        Op::Natural(n) => n as f64,
    })
}

fn show(n: Number, decimals: u32) -> String {
    format!("{:.*}", decimals as usize, float(n))
}

fn node(name: &str, roles: &[&str]) -> NodeConfig {
    NodeConfig {
        name: name.into(),
        host: format!("{name}.example"),
        roles: roles.iter().map(|role| role.to_string()).collect(),
        user: None,
        rule_side: false,
    }
}

fn collector(name: &str, phase: CollectorPhase, transport: Transport, command: &[&str]) -> CollectorConfig {
    CollectorConfig {
        name: name.into(),
        phase,
        transport,
        roles: Vec::new(),
        modes: Vec::new(),
        command: command.iter().map(|word| word.to_string()).collect(),
        preflight: Vec::new(),
        parser: None,
        timeout_seconds: 60,
        max_output_bytes: 1024,
        required: false,
        unavailable_exit_codes: vec![77],
    }
}

fn loaded(nodes: Vec<NodeConfig>, collectors: Vec<CollectorConfig>) -> LoadedConfig {
    LoadedConfig {
        config: Config {
            data_dir: ".isuscope/data".into(),
            source: SourceConfig::default(),
            tooling: ToolingConfig { included: Vec::new() },
            context: ContextConfig { agent: None, codex: None },
            observability: ObservabilityConfig { service_units: Vec::new() },
            benchmark: BenchmarkConfig {
                mode: BenchmarkMode::Command,
                command: vec!["./bench".into()],
                working_dir: None,
                env: Labels::new(),
                stream_output: false,
                score_pattern: "score: ([0-9]+)".into(),
                initialize_start_marker: "start".into(),
                initialize_finish_marker: "finish".into(),
                operator_line_pattern: None,
                sample_output: None,
                parsers: Vec::new(),
            },
            ssh: SshConfig::default(),
            disk: DiskConfig::default(),
            lock: None,
            nodes,
            collectors,
        },
        config_path: "/p/.isuscope/config.toml".into(),
        project_root: "/p".into(),
        data_dir: "/p/.isuscope/data".into(),
    }
}

#[test]
fn parses_posix_df_and_deduplicates_mounts() {
    let output = "Filesystem     1024-blocks     Used Available Capacity Mounted on\n\
                  /dev/root         30298176 26000000   3072000      90% /\n\
                  /dev/root         30298176 26000000   3072000      90% /\n\
                  tmpfs              1876260        0   1876260       0% /run/user data\n";
    assert!(fits_in_bytes(output));
    assert_eq!(
        parse_df(output),
        vec![
            MountFree { mount: "/".into(), free_bytes: 3_072_000 * 1024 },
            MountFree { mount: "/run/user data".into(), free_bytes: 1_876_260 * 1024 },
        ]
    );
}

fn disk() -> DiskConfig {
    DiskConfig::default()
}

#[test]
fn classifies_free_space_against_thresholds() {
    let mib = 1024 * 1024;
    assert_eq!(level(500 * mib, &disk()), DiskLevel::TooLow);
    assert_eq!(level(2048 * mib, &disk()), DiskLevel::Low);
    assert_eq!(level(8192 * mib, &disk()), DiskLevel::Enough);
}

#[test]
fn disks_are_measured_on_observed_nodes() {
    let mut bench = node("bench", &[]);
    bench.rule_side = true;
    let config = loaded(vec![node("app1", &[]), bench], Vec::new());
    let nodes = measured(&config);
    assert_eq!(nodes.len(), 1);
    let arguments = df_arguments(&config, nodes[0]);
    assert_eq!(arguments.last().unwrap(), "df -Pk '/' '/var/log' '/tmp'");
    let low = NodeDisk {
        node: "app1".into(),
        target: "ubuntu@app1.example".into(),
        mounts: Ok(vec![MountFree { mount: "/".into(), free_bytes: 500 * 1024 * 1024 }]),
    };
    let check = check_disks(&vec![low], &disk(), &compute, &show);
    assert!(check.error.unwrap().contains("/ has 500 MiB free"));
    let mount = MountFree { mount: "/".into(), free_bytes: 1536 * 1024 * 1024 };
    assert_eq!(describe(&mount, &compute, &show), "/ has 1.5 GiB free");
    assert!(matches!(read_df(b"", b"ssh: no route\n"), Some(Err(_))));
}

#[test]
fn queues_keep_the_order_of_each_node() {
    let nodes = vec![Some("a".into()), None, Some("b".into()), Some("a".into())];
    let queues = node_queues(&nodes);
    assert_eq!(queues.len(), 2);
    assert_eq!((queues[0].node.as_str(), &queues[0].jobs), ("a", &vec![0, 3]));
    assert_eq!(local_jobs(&nodes), vec![1]);
    assert_eq!(in_order(vec![(2, 'c'), (0, 'a'), (1, 'b')]), vec![(0, 'a'), (1, 'b'), (2, 'c')]);
}

#[test]
fn output_is_cut_at_the_cap() {
    let mut cap = Cap::new(5);
    assert_eq!(cap.accept(3), 3);
    assert_eq!(cap.accept(3), 2);
    assert_eq!(cap.accept(3), 0);
}

#[test]
fn words_are_quoted_for_the_shell() {
    assert_eq!(shell_quote("a'b"), r"'a'\''b'");
    assert_eq!(quote_command(&vec!["sh".into(), "a b".into()]), "'sh' 'a b'");
    assert_eq!(sanitize("a b/c"), "a-b-c");
}

fn no_rules() -> RouteNormalizer {
    RouteNormalizer::from_rules(RouteRules { routes: Vec::new() }).unwrap()
}

#[test]
fn collectors_run_where_their_roles_are() {
    let mut perf = collector("perf", CollectorPhase::During, Transport::Ssh, &["perf", "record"]);
    perf.roles = vec!["app".into()];
    let local = collector("report", CollectorPhase::After, Transport::Local, &["./report"]);
    let mut bench = node("bench", &["app"]);
    bench.rule_side = true;
    let config = loaded(
        vec![node("app1", &["app"]), node("db1", &["db"]), bench],
        vec![perf, local],
    );
    let during = selected(&config, RunMode::Run, CollectorPhase::During);
    assert_eq!(during.len(), 1);
    let on = targets(&config, during[0]);
    assert_eq!(on.iter().map(|node| node.name.as_str()).collect::<Vec<_>>(), ["app1"]);
}

fn place() -> RunPlace {
    RunPlace {
        run_id: "r1".into(),
        run_dir: "/p/run".into(),
        windows: RunWindows::read(None, &compute, &show),
        program: None,
    }
}

fn ending(exit_code: Option<i32>) -> Ending {
    Ending {
        exit_code,
        error: None,
        intentionally_stopped: false,
        stdout: Captured::Complete,
        stderr: Captured::Complete,
        stdout_log_error: None,
        stderr_log_error: None,
        metrics: Vec::new(),
        fingerprints: Vec::new(),
        transitions: Vec::new(),
        parsed: None,
        artifact_error: None,
    }
}

#[test]
fn commands_are_expanded_and_finished() {
    let config = loaded(
        vec![node("app1", &[])],
        vec![
            collector("mark", CollectorPhase::Before, Transport::Ssh, &["echo", "{run_id}", "{node}"]),
            collector("far", CollectorPhase::Before, Transport::Ssh, &["true"]),
        ],
    );
    let specs = expand(&config, &config.config.collectors[0], &place(), &Ok(no_rules())).unwrap();
    assert_eq!(specs.len(), 1);
    assert_eq!(specs[0].program, "ssh");
    assert_eq!(specs[0].args.last().unwrap(), "'echo' 'r1' 'app1'");
    let output = finalize(&specs[0], ending(Some(0)));
    assert_eq!(output.result.status, "complete");
    let output = finalize(&specs[0], ending(Some(77)));
    assert_eq!(output.result.status, "unavailable");
    let output = finalize(&specs[0], ending(Some(1)));
    assert_eq!(output.result.status, "failed");
    let plan = plan_phase(&config, RunMode::Run, CollectorPhase::Before, &place(), &Ok(no_rules()));
    assert_eq!(plan.jobs.len(), 2);
}

#[test]
fn unreadable_routes_stop_only_those_that_need_them() {
    let config = loaded(
        vec![node("app1", &[])],
        vec![
            collector("alp", CollectorPhase::Before, Transport::Ssh, &["alp", "-m{route_matching_groups}"]),
            collector("mark", CollectorPhase::Before, Transport::Ssh, &["true"]),
        ],
    );
    let rules = Err("cannot read routes.toml".to_owned());
    let plan = plan_phase(&config, RunMode::Run, CollectorPhase::Before, &place(), &rules);
    assert_eq!(plan.jobs.len(), 1);
    assert_eq!(plan.settled.len(), 1);
    assert_eq!(plan.settled[0].result.name, "alp");
    assert_eq!(plan.settled[0].result.status, "failed");
    assert_eq!(plan.settled[0].result.error.as_deref(), Some("cannot read routes.toml"));
}

#[test]
fn a_wait_ends_in_a_status_or_a_reason() {
    assert_eq!(read_wait(CollectorWait::Exited(Some(3)), 9), (Some(3), None));
    assert_eq!(
        read_wait(CollectorWait::TimedOut, 9),
        (None, Some("collector timed out after 9s".into()))
    );
    assert_eq!(
        read_wait(CollectorWait::Interrupted, 9),
        (None, Some("interrupted by signal".into()))
    );
    assert_eq!(
        read_wait(CollectorWait::Failed("gone".into()), 9),
        (None, Some("gone".into()))
    );
}

#[test]
fn only_run_ids_are_cleaned_up_and_only_on_observed_nodes() {
    let mut bench = node("bench", &[]);
    bench.rule_side = true;
    let config = loaded(vec![node("app1", &[]), bench], Vec::new());
    let steps = cleanup_abandoned(
        &config,
        &vec!["01a03df2-ecb2-72b3-aa1f-c952d3dd102b".into(), "../etc".into()],
    );
    assert_eq!(steps.len(), 2);
    match &steps[0] {
        Cleanup::OnNode { node, arguments } => {
            assert_eq!(node, "app1");
            assert!(arguments
                .last()
                .unwrap()
                .contains("base=/tmp/isuscope-01a03df2-ecb2-72b3-aa1f-c952d3dd102b.perf;"));
        }
        other => panic!("{other:?}"),
    }
    assert!(matches!(
        &steps[1],
        Cleanup::Refused(line) if line == "! refusing cleanup for invalid run ID ../etc"
    ));
    assert_eq!(plan_cleanup(&config, "x", true).len(), 1);
    assert_eq!(cleanup_failed("app1", "timeout"), "! abandoned cleanup failed on app1: timeout");
}

#[test]
fn configurations_are_checked() {
    let good = loaded(vec![node("a", &[])], Vec::new()).config;
    assert!(validate(&good).is_ok());
    let twice = loaded(vec![node("a", &[]), node("a", &[])], Vec::new()).config;
    let error = validate(&twice).unwrap_err();
    assert!(matches!(&error, ConfigError::DuplicateNode(name) if name == "a"));
    assert!(error.message().contains("a"));
    let mut bare = loaded(Vec::new(), Vec::new()).config;
    bare.benchmark.command = Vec::new();
    assert!(matches!(validate(&bare), Err(ConfigError::NoBenchmarkCommand)));
    let empty = loaded(
        Vec::new(),
        vec![collector("x", CollectorPhase::Before, Transport::Local, &[])],
    );
    assert!(matches!(validate(&empty.config), Err(ConfigError::NoCollectorCommand(_))));
}

#[test]
fn configurations_are_found_above_the_start() {
    let places = LoadedConfig::candidates("/home/isucon/app");
    assert_eq!(places[0], "/home/isucon/app/.isuscope/config.toml");
    let mut found = vec![false; places.len()];
    found[1] = true;
    assert_eq!(
        LoadedConfig::discover("/home/isucon/app", &found).as_deref(),
        Some("/home/isucon/.isuscope/config.toml")
    );
    let loaded = LoadedConfig::load("/p/.isuscope/config.toml", loaded(Vec::new(), Vec::new()).config)
        .unwrap();
    assert_eq!(loaded.project_root, "/p");
    assert_eq!(loaded.data_dir, "/p/.isuscope/data");
}

#[test]
fn findings_are_counted_and_shown() {
    let mut report = DoctorReport::default();
    assert_eq!(report.record(Finding::Pass("a".into())), "✓ a");
    assert_eq!(report.record(Finding::Warn("b".into())), "! b");
    assert!(report.healthy());
    assert_eq!(report.record(Finding::Fail("c".into())), "✗ c");
    assert!(!report.healthy());
    assert_eq!((report.passed, report.warnings, report.failures), (1, vec!["b".into()], vec!["c".into()]));
}

fn text(finding: &Finding) -> (&'static str, &str) {
    match finding {
        Finding::Pass(text) => ("pass", text),
        Finding::Warn(text) => ("warn", text),
        Finding::Fail(text) => ("fail", text),
    }
}

#[test]
fn the_machine_is_examined() {
    assert_eq!(text(&check_data_dir("/d", None)).0, "pass");
    assert_eq!(
        text(&check_data_dir("/d", Some("denied"))),
        ("fail", "data directory is not writable (/d): denied")
    );
    assert_eq!(
        text(&check_space(Ok(512 * 1024 * 1024), &compute, &show)),
        ("warn", "data filesystem has only 512.0 MiB free")
    );
    assert_eq!(
        text(&check_space(Ok(3 * 512 * 1024 * 1024), &compute, &show)),
        ("pass", "data filesystem free space: 1.5 GiB")
    );
    assert_eq!(
        text(&check_space(Err("no such file"), &compute, &show)),
        ("warn", "cannot determine free disk space: no such file")
    );
    assert!(is_script("a/setup.sh"));
    assert!(!is_script("a/.sh"));
    assert!(!is_script("a/setup.sh.txt"));
    assert_eq!(shell_for(Some("#!/usr/bin/env bash\necho")), "bash");
    assert_eq!(shell_for(Some("#!/bin/sh\n# bash")), "sh");
    assert_eq!(shell_for(None), "sh");
    assert_eq!(text(&check_tooling("x", &FileState::Missing)).0, "fail");
    assert_eq!(text(&check_tooling("x", &FileState::Readable)).0, "pass");
    assert_eq!(
        text(&check_tooling("x", &FileState::Script(SyntaxCheck::Failed(b" line 3 \n".to_vec())))),
        ("fail", "shell syntax error in x: line 3")
    );
    assert_eq!(text(&check_program("benchmark", "./bench", true)).0, "pass");
    assert_eq!(
        places_of("./bench", "/p", &vec!["/bin".into()]),
        ["/p/./bench"]
    );
    assert_eq!(
        places_of("ssh", "/p", &vec!["/bin".into(), "/usr/bin".into()]),
        ["/bin/ssh", "/usr/bin/ssh"]
    );
    assert_eq!(
        find_program(&vec!["/bin/ssh".into(), "/usr/bin/ssh".into()], &vec![false, true]).as_deref(),
        Some("/usr/bin/ssh")
    );
}

#[test]
fn the_nodes_are_examined() {
    let mut config = loaded(
        vec![node("app1", &["app"])],
        vec![
            collector("perf", CollectorPhase::During, Transport::Ssh, &["sh", "-c", "sudo -n perf"]),
            collector("local", CollectorPhase::After, Transport::Local, &["./local"]),
        ],
    );
    assert!(node_requires_sudo(&config, &config.config.nodes[0]));
    assert!(check_reach(&config, true).is_none());
    assert_eq!(text(&check_reach(&config, false).unwrap()).0, "fail");
    let arguments = clock_arguments(&config, &config.config.nodes[0]);
    assert_eq!(arguments[arguments.len() - 4..], ["ubuntu@app1.example", "--", "date", "+%s"]);
    let arguments = sudo_arguments(&config, &config.config.nodes[0]);
    assert_eq!(arguments[arguments.len() - 3..], ["sudo", "-n", "true"]);
    let commands = check_commands(&config, "/p/bench");
    assert_eq!(commands.len(), 2);
    assert_eq!(commands[0].working_dir, "/p/bench");
    assert_eq!(commands[1].label, "local collector `local`");
    let told = |text: &str| Reply::Ended {
        success: true,
        stdout: text.as_bytes().to_vec(),
        stderr: Vec::new(),
    };
    let (finding, answered) = check_clock("t", &told("1000\n"), 1002);
    assert_eq!((text(&finding), answered), (("pass", "SSH t: connected, clock skew 2s"), true));
    let (finding, _) = check_clock("t", &told("1000\n"), 997);
    assert_eq!(text(&finding), ("warn", "SSH t: clock differs by 3s"));
    let (finding, answered) = check_clock("t", &told("noon"), 997);
    assert_eq!((text(&finding), answered), (("fail", "SSH t: invalid clock response"), false));
    assert_eq!(text(&check_clock("t", &Reply::TimedOut, 0).0), ("fail", "SSH t timed out"));
    assert_eq!(text(&check_sudo("t", &told(""))).0, "pass");
    assert_eq!(
        text(&check_sudo("t", &Reply::NotRun("gone".into()))),
        ("fail", "SSH t: sudo check failed: gone")
    );
    assert_eq!(text(&check_preflight("slp", "db1", &told(""))).0, "pass");
    assert_eq!(text(&check_preflight("slp", "db1", &Reply::TimedOut)).0, "fail");
    config.config.ssh.identity_file = Some("keys/id".into());
    assert_eq!(
        text(&check_identity(&config, false).unwrap()),
        ("fail", "SSH identity is missing: /p/keys/id")
    );
    let full = NodeDisk {
        node: "app1".into(),
        target: "t".into(),
        mounts: Ok(vec![MountFree { mount: "/".into(), free_bytes: 1 }]),
    };
    assert_eq!(text(&check_disk(&full, &disk(), &compute, &show)).0, "fail");
}

#[test]
fn the_sample_output_is_examined() {
    let config = loaded(Vec::new(), Vec::new()).config.benchmark;
    let findings = check_sample(&config, "start\nwork\n");
    assert_eq!(findings.iter().map(|f| text(f).0).collect::<Vec<_>>(), ["pass", "warn"]);
    assert_eq!(text(&check_marker("a b", "m", "b")).0, "pass");
    assert_eq!(text(&check_parser("p", None, 0, 0)).0, "warn");
    assert_eq!(text(&check_parser("p", None, 2, 5)).0, "fail");
    assert_eq!(text(&check_parser("p", Some("exit 1"), 0, 5)).0, "fail");
    assert_eq!(text(&check_parser("p", None, 0, 5)).0, "pass");
    assert_eq!(text(&check_routes("r", 0)).0, "pass");
    assert_eq!(text(&check_routes("r", 2)).0, "warn");
}

fn ended(name: &str, node: &str, status: &str, exit_code: i32) -> CollectorOutput {
    CollectorOutput {
        result: CollectorResult {
            name: name.into(),
            node: Some(node.into()),
            phase: "before".into(),
            status: status.into(),
            exit_code: Some(exit_code),
            error: None,
            log_ids: Vec::new(),
        },
        logs: Vec::new(),
        metrics: Vec::new(),
        fingerprints: Vec::new(),
        transitions: Vec::new(),
    }
}

#[test]
fn a_benchmark_waits_for_nodes_that_cannot_be_reached() {
    let mark = collector("mark", CollectorPhase::Before, Transport::Ssh, &["true"]);
    let mut must = collector("must", CollectorPhase::Before, Transport::Ssh, &["true"]);
    must.required = true;
    let config = loaded(vec![node("app1", &[]), node("app2", &[])], vec![mark, must]);
    let fine = vec![ended("mark", "app1", "complete", 0)];
    assert!(matches!(decide(&config, &fine, false), Decision::Benchmark));
    assert!(matches!(decide(&config, &fine, true), Decision::Skip(_)));
    let lost = vec![
        ended("mark", "app1", "complete", 0),
        ended("mark", "app2", "failed", 255),
    ];
    assert_eq!(unreachable_ssh_nodes(&config, &lost), ["app2"]);
    match decide(&config, &lost, false) {
        Decision::Refuse(result, error) => {
            assert_eq!(result.passed, Some(false));
            assert!(error.contains("app2"));
        }
        _ => panic!("the benchmark must not start"),
    }
    // A node that answered once is there.
    let shaky = vec![ended("mark", "app2", "failed", 255), ended("mark", "app2", "failed", 1)];
    assert!(unreachable_ssh_nodes(&config, &shaky).is_empty());
    let required = vec![ended("must", "app1", "failed", 1)];
    match decide(&config, &required, false) {
        Decision::Skip(result) => {
            assert_eq!(result.error.as_deref(), Some("a required before collector failed"));
        }
        _ => panic!("the benchmark must not start"),
    }
}

#[test]
fn ssh_is_asked_as_the_project_says() {
    let mut config = loaded(vec![node("app1", &[])], Vec::new());
    config.config.ssh.identity_file = Some("key".into());
    config.config.ssh.known_hosts_file = Some(".local/known-hosts".into());
    let options = config.ssh_options();
    assert!(options.contains(&"BatchMode=yes".to_owned()));
    assert!(options.contains(&"/p/key".to_owned()));
    assert!(options.contains(&"StrictHostKeyChecking=accept-new".to_owned()));
    assert!(options.contains(&"UserKnownHostsFile=/p/.local/known-hosts".to_owned()));
    assert_eq!(config.benchmark_working_dir(), "/p");
    config.config.benchmark.working_dir = Some("bench".into());
    assert_eq!(config.benchmark_working_dir(), "/p/bench");
}
