use isuscope::git_snapshot::{
    capture_git, capture_without_git, is_excluded, scope_arguments, unknown_source,
    untracked_paths, GitState,
};
use isuscope::html::{diff_form, escape, short};
use isuscope::init::{
    fill_config, list_files, render_config, scaffold, scaffold_notes, scaffold_with, ConfigOptions,
    ScaffoldFile, ScaffoldStep, Templates, Written, SCAFFOLD,
};
use isuscope::lock::{
    exit_code, held_by_parent, owner_text, run_locked, timing_line, timing_path, LockBusy,
    BUSY_EXIT_CODE, HELD_ENV,
};
use isuscope::model::FileDigest;
use isuscope::number::{Number, Op};
use isuscope::sql::{
    check_columns, missing_database, query, schema, value_of, write_tsv, Cell, SqlValue,
};
use isuscope::storage::RunSummary;
use isuscope::tooling::{
    capture, check_paths, extra_path, version_text, without_tooling, KeptFile,
};
use isuscope::ui::{
    percent_decode, query_params, reply_to_failure, reply_without_runs, response_header, route,
    Wanted, ADDRESS,
};
use std::collections::BTreeMap;

fn float(n: Number) -> f64 {
    f64::from_bits(n.bits)
}

fn number(x: f64) -> Number {
    Number { bits: x.to_bits() }
}

fn compute(op: Op) -> Number {
    number(match op {
        Op::Add(a, b) => float(a) + float(b),
        Op::Subtract(a, b) => float(a) - float(b),
        Op::Multiply(a, b) => float(a) * float(b),
        Op::Divide(a, b) => float(a) / float(b),
        Op::Round(a, places) => {
            let scale = 10f64.powi(places as i32);
            (float(a) * scale).round() / scale
        }
        Op::Integer(n) => n as f64,
        Op::Natural(n) => n as f64,
    })
}

fn show(n: Number, decimals: u32) -> String {
    format!("{:.*}", decimals as usize, float(n))
}

#[test]
fn ui_is_fixed_to_loopback_without_configuration() {
    assert_eq!(ADDRESS, "127.0.0.1:3000");
}

#[test]
fn requests_are_routed() {
    assert!(matches!(route(b"GET / HTTP/1.1\r\n\r\n"), Wanted::LatestPage));
    assert!(matches!(route(b"POST / HTTP/1.1\r\n\r\n"), Wanted::MethodNotAllowed));
    assert!(matches!(route(b"nonsense"), Wanted::MethodNotAllowed));
    assert!(matches!(route(b""), Wanted::BadRequest));
    assert!(matches!(
        route(b"GET /diff?base=a&candidate=b HTTP/1.1\r\n\r\n"),
        Wanted::DiffPage(base, candidate) if base == "a" && candidate == "b"
    ));
    assert!(matches!(route(b"GET /diff HTTP/1.1\r\n\r\n"), Wanted::DiffForm));
    assert!(matches!(route(b"GET /else HTTP/1.1\r\n\r\n"), Wanted::NotFound));
    assert_eq!(reply_without_runs(&Wanted::NotFound).unwrap().status, 404);
    assert!(reply_without_runs(&Wanted::LatestPage).is_none());
    assert_eq!(reply_to_failure(&Wanted::LatestPage, "gone", "{}").status, 500);
    let header = response_header(200, "text/html", 12);
    assert!(header.contains("Content-Length: 12\r\n"));
    assert_eq!(percent_decode("a%20b").as_deref(), Some("a b"));
    assert_eq!(percent_decode("%zz"), None);
    assert_eq!(query_params("a=1&b=2").get("b").map(String::as_str), Some("2"));
}

#[test]
fn pages_hold_no_markup_of_their_values() {
    assert_eq!(escape("<a href=\"x\">&"), "&lt;a href=&quot;x&quot;&gt;&amp;");
    assert_eq!(short("01a03df2-ecb2-72b3-aa1f-c952d3dd102b"), "d3dd102b");
    let page = diff_form(&vec![RunSummary {
        id: "01a03df2-ecb2-72b3-aa1f-c952d3dd102b".into(),
        started_at: "2026-09-19T00:00:00+00:00".into(),
        commit_hash: None,
        dirty: false,
        mode: "run".into(),
        state: "complete".into(),
        score: Some(7),
        passed: Some(true),
        tags: Vec::new(),
    }]);
    assert!(page.contains("01a03df2-ecb2-72b3-aa1f-c952d3dd102b"));
}

#[test]
fn lists_of_git_are_read() {
    let configured = vec!["docs/history".to_owned()];
    assert!(is_excluded("a/.git/config", &configured));
    assert!(is_excluded("target/debug", &configured));
    assert!(is_excluded("docs/history/a.md", &configured));
    assert!(!is_excluded("docs/history2/a.md", &configured));
    assert_eq!(
        untracked_paths(b"a.txt\0docs/history/x.md\0.isuscope/y\0b.txt\0", &configured),
        ["a.txt", "b.txt"]
    );
    assert_eq!(
        scope_arguments(&vec!["docs\\history".into()]),
        ["--", ".", ":(exclude)docs/history"]
    );
}

fn digest(path: &str) -> FileDigest {
    FileDigest { path: path.into(), sha256: "00".into() }
}

#[test]
fn sources_are_described_by_commit_patch_and_files() {
    let state = |untracked: Vec<FileDigest>, status: &[u8]| GitState {
        root: "/repo".into(),
        commit: Some("abc\n".into()),
        branch: Some(" \n".into()),
        status: status.to_vec(),
        patch: b"diff".to_vec(),
        untracked,
    };
    let one = capture_git(state(vec![digest("b"), digest("a")], b" M app.txt"));
    assert!(one.git_available);
    assert!(one.dirty);
    assert_eq!(one.commit_hash.as_deref(), Some("abc"));
    assert_eq!(one.branch, None);
    assert_eq!(one.untracked[0].path, "a");
    let two = capture_git(state(vec![digest("a"), digest("b")], b""));
    assert!(!two.dirty);
    assert_eq!(one.state_sha256, two.state_sha256);
    // The digest of `abcdiffa00b00`.
    assert_eq!(
        one.state_sha256,
        "de5336728e8af45151ed9cf26b9a91a05ff6d8acde96e677e5407d4ada66d166"
    );
    let plain = capture_without_git("/repo".into(), vec![digest("a")], "no git".into());
    assert!(plain.dirty);
    assert_eq!(plain.error.as_deref(), Some("no git"));
    assert_eq!(unknown_source("/repo".into(), "e".into()).state_sha256, "");
}

#[test]
fn tooling_is_kept_by_digest() {
    assert!(check_paths(&vec!["lib/a.sh".into()]).is_ok());
    assert_eq!(
        check_paths(&vec!["a".into(), "../b".into()]).unwrap_err(),
        "tooling include must be a relative file path: ../b"
    );
    assert!(check_paths(&vec!["/etc/passwd".into()]).is_err());
    assert_eq!(extra_path("/d", "lib/a.sh"), "/d/extra/lib/a.sh");
    assert_eq!(version_text("0.1.0"), "isuscope 0.1.0\n");
    let snapshot = capture(
        "0.1.0",
        b"abc",
        &Some(b"".to_vec()),
        &None,
        &None,
        &vec![KeptFile { path: "lib/a.sh".into(), bytes: b"abc".to_vec() }],
    );
    let abc = "ba7816bf8f01cfea414140de5dae2223b00361a396177a9cb410ff61f20015ad";
    assert_eq!(snapshot.config_sha256, abc);
    assert_eq!(
        snapshot.routes_sha256.as_deref(),
        Some("e3b0c44298fc1c149afbf4c8996fb92427ae41e4649b934ca495991b7852b855")
    );
    assert_eq!(snapshot.setup_script_sha256, None);
    assert_eq!(snapshot.extra_files_sha256.get("lib/a.sh").map(String::as_str), Some(abc));
    assert_eq!(without_tooling("0.1.0", "e".into()).error.as_deref(), Some("e"));
}

#[test]
fn the_lock_tells_who_holds_it() {
    let busy = LockBusy { path: "/l".into(), owner: "pid=1\noperation=deploy\n".into() };
    assert_eq!(
        busy.message(),
        "another modifying operation is running: /l\n  pid=1\n  operation=deploy"
    );
    assert_eq!((HELD_ENV, BUSY_EXIT_CODE), ("ISUSCOPE_LOCK_HELD", 75));
    assert!(held_by_parent(&Some("1".into())));
    assert!(!held_by_parent(&Some("0".into())));
    assert!(!held_by_parent(&None));
    assert_eq!(owner_text(7, "now", "deploy"), "pid=7\nstarted_at=now\noperation=deploy\n");
    let run = run_locked(&vec!["./bin/deploy.sh".into(), "app1".into()]).unwrap();
    assert_eq!((run.operation.as_str(), run.arguments), ("deploy.sh", vec!["app1".to_owned()]));
    assert!(run_locked(&Vec::new()).is_err());
    assert_eq!(exit_code(Some(3), None), 3);
    assert_eq!(exit_code(None, Some(9)), 137);
    assert_eq!(timing_path(".local/operation.lock"), ".local/operation-timing.tsv");
    assert_eq!(
        timing_line("now", "deploy", number(1.25), -1, &show),
        format!("now\tdeploy\t{:.1}\t-1\n", 1.25)
    );
    let _ = compute(Op::Integer(1));
}

#[test]
fn new_projects_keep_what_is_there() {
    let options = ConfigOptions::default();
    let template = "data = \"@@DATA_DIR@@\"\nunits = [@@SERVICE_UNITS@@]\n@@SAMPLE_OUTPUT@@\n";
    let rendered = render_config(
        &ConfigOptions {
            service_units: vec!["isu.service".into(), "a\"b".into()],
            sample_output: Some("out.log".into()),
            scaffold: false,
            ..options.clone()
        },
        template,
    );
    assert_eq!(
        rendered,
        "data = \".isuscope/data\"\nunits = [\"isu.service\", \"a\\\"b\"]\nsample_output = \"out.log\"\n"
    );
    let with_examples = fill_config(
        &options,
        "@@SAMPLE_OUTPUT@@",
        &Written { units: Vec::new(), sample_output: None },
    );
    assert_eq!(
        with_examples,
        format!("# sample_output = \"config/benchmark-sample.log\"{SCAFFOLD}")
    );
    assert!(!rendered.contains("@@"));
    let templates = templates();
    let files = list_files();
    let found: Vec<bool> = files.iter().map(|file| *file == ScaffoldFile::Setup).collect();
    let steps = scaffold("/p", &templates, &found);
    assert_eq!(steps.len(), 7);
    assert_eq!(steps[0].line, "create /p/.isuscope/config.toml");
    assert_eq!(steps[0].content, Some(render_config(&options, "data = \"@@DATA_DIR@@\"\n")));
    assert_eq!(steps[1].content.as_deref(), Some("routes"));
    assert_eq!(steps[2].line, "keep   /p/.isuscope/setup.sh");
    assert_eq!((&steps[2].content, steps[2].mode), (&None, None));
    let modes: Vec<Option<u32>> = steps.iter().map(|step| step.mode).collect();
    assert_eq!(modes, [None, None, None, Some(0o755), Some(0o755), Some(0o755), None]);
    assert_eq!(scaffold_notes("/p")[0], "isuscope scaffold: /p/.isuscope");
}

fn templates() -> Templates {
    Templates {
        config: "data = \"@@DATA_DIR@@\"\n".into(),
        routes: "routes".into(),
        setup: "setup".into(),
        fingerprint: "fingerprint".into(),
        benchmark: "benchmark".into(),
        benchmark_parser: "parser".into(),
        setup_doc: "doc".into(),
    }
}

#[test]
fn a_project_is_made_once() {
    let options = ConfigOptions { scaffold: false, ..ConfigOptions::default() };
    let mut disk: BTreeMap<String, (String, Option<u32>)> = BTreeMap::new();
    disk.insert("/p/.isuscope/benchmark.sh".into(), ("mine".into(), None));
    let make = |disk: &BTreeMap<String, (String, Option<u32>)>| -> Vec<ScaffoldStep> {
        let found = list_files()
            .into_iter()
            .map(|file| disk.contains_key(&format!("/p/.isuscope/{}", file.file_name())))
            .collect();
        scaffold_with("/p", &options, &templates(), &found)
    };
    for step in make(&disk) {
        if let Some(content) = step.content {
            disk.insert(step.path, (content, step.mode));
        }
    }
    assert_eq!(disk.len(), 7);
    assert_eq!(disk["/p/.isuscope/benchmark.sh"], ("mine".to_owned(), None));
    assert_eq!(disk["/p/.isuscope/parse-benchmark.sh"], ("parser".to_owned(), Some(0o755)));
    assert_eq!(disk["/p/.isuscope/config.toml"].0, "data = \".isuscope/data\"\n");
    for step in make(&disk) {
        assert_eq!((step.content, step.mode), (None, None));
        assert!(step.line.starts_with("keep   "));
    }
}

#[test]
fn sql_results_are_written_as_lines() {
    let columns = vec!["a".to_owned(), "b".to_owned()];
    let rows = vec![
        vec![SqlValue::Integer(-4), SqlValue::Text(b"x\ty\nz".to_vec())],
        vec![SqlValue::Null, SqlValue::Blob(vec![1, 2, 3])],
        vec![SqlValue::Real(number(1.5), "1.5".into()), SqlValue::Null],
    ];
    let output = query(columns.clone(), &rows, 2).unwrap();
    assert!(output.truncated);
    assert_eq!(
        write_tsv(&output),
        "a\tb\n-4\tx y z\n\t<3 bytes>\n# truncated at 2 rows\n"
    );
    let whole = query(columns, &rows, 3).unwrap();
    assert_eq!((whole.truncated, whole.row_count), (false, 3));
    assert!(matches!(
        value_of(&SqlValue::Real(number(f64::NAN), "NaN".into())),
        Cell::Null
    ));
    assert!(matches!(value_of(&SqlValue::Text(vec![0xff])), Cell::Text(text) if text == "\u{fffd}"));
    assert!(check_columns(&vec!["a".into(), "b".into(), "a".into()])
        .unwrap_err()
        .contains("duplicate column `a`"));
    assert_eq!(schema(&vec!["CREATE A".into(), "CREATE B".into()]), "CREATE A;\nCREATE B;\n");
    assert!(missing_database("/d").starts_with("/d does not exist yet"));
}
