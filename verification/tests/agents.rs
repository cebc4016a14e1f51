use isuscope::agent_context::{
    agent_of, current_sessions, history_belongs_to_session, latest_user_input_id, resolve, safe_component,
    valid_history_files, AgentSession, HistoryFile, CLAUDE_SESSION, CODEX,
};
use isuscope::codex_context;

fn session(agent: &str, id: &str) -> AgentSession {
    AgentSession { agent: agent.into(), id: id.into() }
}

fn other() -> String {
    agent_of(CLAUDE_SESSION)
}

fn file(path: &str, text: &str) -> HistoryFile {
    HistoryFile { path: path.into(), bytes: text.as_bytes().to_vec() }
}

#[test]
fn selects_the_latest_user_input_for_a_legacy_codex_session() {
    let text = "# Codex conversation\n\n- Session: `session-a`\n\n<!-- codex-event:session-a:turn-1:user -->\n<!-- codex-event:session-a:turn-1:codex -->\n<!-- codex-event:session-a:turn-2:user -->\n";
    let codex = session(CODEX, "session-a");
    assert!(history_belongs_to_session(text, &codex));
    assert!(!history_belongs_to_session(text, &session(&other(), "session-a")));
    assert_eq!(latest_user_input_id(text, &codex).as_deref(), Some("turn-2"));
    assert_eq!(latest_user_input_id(text, &session(CODEX, "session-b")), None);
    assert_eq!(safe_component("..thr:one///two.."), "thr-one-two");
}

#[test]
fn selects_the_latest_user_input_for_an_agent_session() {
    let name = other();
    let text = format!(
        "# Agent conversation\n\n- Agent: `{name}`\n- Session: `s1`\n\n<!-- agent-event:{name}:s1:p1:user -->\n<!-- agent-event:{name}:s1:p1:{name} -->\n<!-- agent-event:{name}:s1:p2:user -->\n"
    );
    let text = text.as_str();
    let claude = session(&other(), "s1");
    assert!(history_belongs_to_session(text, &claude));
    assert!(!history_belongs_to_session(text, &session(CODEX, "s1")));
    assert_eq!(latest_user_input_id(text, &claude).as_deref(), Some("p2"));
}

#[test]
fn selects_the_latest_user_input_for_a_session() {
    let text = "# Codex conversation\n\n- Session: `session-a`\n\n<!-- codex-event:session-a:turn-1:user -->\n<!-- codex-event:session-a:turn-1:codex -->\n<!-- codex-event:session-a:turn-2:user -->\n";
    assert!(codex_context::history_belongs_to_session(text, "session-a"));
    assert_eq!(
        codex_context::latest_user_input_id(text, "session-a").as_deref(),
        Some("turn-2")
    );
    assert_eq!(codex_context::latest_user_input_id(text, "session-b"), None);
    assert_eq!(safe_component("..thr:one///two.."), "thr-one-two");
}

#[test]
fn agents_are_named_by_their_variables() {
    assert_eq!(agent_of("CODEX_SESSION_ID"), CODEX);
    assert_eq!(agent_of("OTHER_AGENT_SESSION_ID"), "other");
    assert_eq!(agent_of("plain"), "plain");
}

#[test]
fn long_names_end_in_a_digest() {
    let name = safe_component(&"a".repeat(97));
    assert_eq!(name.len(), 80 + 1 + 12);
    assert!(name.starts_with(&"a".repeat(80)));
    // The digest of ninety-seven letters, not the letters themselves.
    assert!(!name.ends_with("aaaaaaaaaaaa"));
    assert_eq!(safe_component("///"), "unknown-session");
}

#[test]
fn sessions_come_from_the_settings_of_the_process() {
    assert_eq!(
        current_sessions(Some("one".into()), Some("one".into()), Some("two".into())).unwrap(),
        vec![session(CODEX, "one"), session(&other(), "two")]
    );
    assert!(current_sessions(Some("one".into()), Some("two".into()), None).is_err());
    assert!(current_sessions(Some(" ".into()), None, None).is_err());
    assert_eq!(
        codex_context::current_session_id(None, Some("t".into())).as_deref(),
        Ok("t")
    );
    assert!(codex_context::current_session_id(None, None).unwrap_err().contains("is not set"));
    assert!(codex_context::current_session_id(Some("a".into()), Some("b".into()))
        .unwrap_err()
        .contains("disagree"));
}

#[test]
fn a_conversation_is_found_by_its_session() {
    let name = other();
    let text =
        format!("- Agent: `{name}`\n- Session: `s1`\n<!-- agent-event:{name}:s1:p1:user -->\n");
    let text = text.as_str();
    let own = file("/repo/.history/a.md", text);
    let second = file("/repo/.history/b.md", "- Session: `s2`\n");
    let sessions = vec![session(&other(), "s1")];
    let found = resolve(
        "/repo",
        "/repo/.history",
        &sessions,
        &vec![own.clone(), second.clone()],
    )
    .unwrap();
    assert_eq!(found.metadata.history_path, ".history/a.md");
    assert_eq!(found.metadata.input_id, "p1");
    assert_eq!(found.metadata.sha256.len(), 64);
    assert_eq!(found.bytes, text.as_bytes());
    assert!(resolve("/repo", "/else", &sessions, &vec![own.clone()]).is_err());
    assert!(resolve("/repo", "/repo/.history", &sessions, &vec![second.clone()])
        .unwrap_err()
        .contains("no agent history file"));
    assert!(resolve("/repo", "/repo/.history", &sessions, &vec![own.clone(), own.clone()])
        .unwrap_err()
        .contains("multiple agent history files"));
    let broken = HistoryFile { path: "/repo/.history/c.md".into(), bytes: vec![0xff] };
    assert!(resolve("/repo", "/repo/.history", &sessions, &vec![broken])
        .unwrap_err()
        .contains("is not UTF-8"));
    assert_eq!(valid_history_files(&vec![own, second]), Ok(2));
}

#[test]
fn a_codex_conversation_is_found_by_its_session() {
    let text = "- Session: `s1`\n<!-- codex-event:s1:t7:user -->\n";
    let own = file("/repo/h/a.md", text);
    let found = codex_context::resolve("/repo", "/repo/h", "s1", &vec![own.clone()]).unwrap();
    assert_eq!(found.metadata.input_id, "t7");
    assert_eq!(found.metadata.snapshot_path, "context/codex-history.md");
    assert!(codex_context::resolve("/repo", "/repo/h", "s2", &vec![own.clone()]).is_err());
    assert!(codex_context::resolve("/repo", "/h", "s1", &vec![own.clone()]).is_err());
    assert!(codex_context::resolve("/repo", "/repo/h", "s1", &vec![own.clone(), own.clone()])
        .is_err());
    let silent = file("/repo/h/b.md", "- Session: `s1`\n");
    assert!(codex_context::resolve("/repo", "/repo/h", "s1", &vec![silent.clone()])
        .unwrap_err()
        .contains("no User input marker"));
    let outside = file("/h/a.md", text);
    assert!(codex_context::resolve("/repo", "/repo/h", "s1", &vec![outside])
        .unwrap_err()
        .contains("is outside source repository"));
    assert_eq!(codex_context::valid_history_files(&vec![own, silent]), Ok(2));
}
