//! The conversation with an agent that a run belongs to.
use crate::benchmark::{ascii_lowered, lower_ascii};
use crate::digest::{fingerprint, fingerprint_of, hex_text};
use crate::model::AgentContext;
use crate::paths::{below, path_below};
use crate::protocol::{first_picked, last_picked};
use crate::report::text_option;
use crate::text::{
    alnum, append, append_str, before_char, blank, chars_of, chars_option, cut_before, glue2, glue3,
    glue5, is_alnum, is_blank, join, joined, lines, lines_of, same, slice_of, string_of,
    strip_prefix, strip_suffix, stripped_prefix, stripped_suffix, text_from_bytes, views,
};
use vstd::prelude::*;

verus! {

/// Where the conversation is kept in a run.
pub const SNAPSHOT_PATH: &'static str = "context/agent-history.md";

pub const CODEX: &'static str = "codex";

/// The variable by which the other agent names its session.
pub const CLAUDE_SESSION: &'static str = "CLAUDE_CODE_SESSION_ID";

/// The conversation of a run, with the file that it was read from.
#[derive(Debug)]
pub struct ResolvedAgentContext {
    pub metadata: AgentContext,
    pub bytes: Vec<u8>,
}

/// An agent session visible to this process, identified by the agent that launched it.
#[derive(Clone, Debug, PartialEq, Eq)]
pub struct AgentSession {
    pub agent: String,
    pub id: String,
}

/// A character that stays in a name.
pub open spec fn is_plain(c: char) -> bool {
    is_alnum(c) || c == '_' || c == '.' || c == '-'
}

/// A text in which each run of other characters is one dash.
pub open spec fn dashed(s: Seq<char>) -> Seq<char>
    decreases s.len(),
{
    if s.len() == 0 {
        Seq::empty()
    } else if is_plain(s.last()) {
        dashed(s.drop_last()).push(s.last())
    } else if s.len() > 1 && !is_plain(s[s.len() - 2]) {
        dashed(s.drop_last())
    } else {
        dashed(s.drop_last()).push('-')
    }
}

pub open spec fn is_edge(c: char) -> bool {
    c == '-' || c == '.'
}

/// A text without dashes and dots at its start.
pub open spec fn without_head(s: Seq<char>) -> Seq<char>
    decreases s.len(),
{
    if s.len() > 0 && is_edge(s[0]) {
        without_head(s.skip(1))
    } else {
        s
    }
}

/// A text without dashes and dots at its end.
pub open spec fn without_tail(s: Seq<char>) -> Seq<char>
    decreases s.len(),
{
    if s.len() > 0 && is_edge(s.last()) {
        without_tail(s.drop_last())
    } else {
        s
    }
}

/// A session as a name of any length.
pub open spec fn name_of(value: Seq<char>) -> Seq<char> {
    let short = without_tail(without_head(dashed(value)));
    if short.len() == 0 {
        "unknown-session"@
    } else {
        short
    }
}

/// A session as the name of a file. A long one is cut, and ends with a part of its digest.
pub open spec fn component_of(value: Seq<char>) -> Seq<char> {
    let named = name_of(value);
    if named.len() <= 96 {
        named
    } else {
        named.take(80) + "-"@ + fingerprint_of(vstd::utf8::encode_utf8(value)).take(12)
    }
}

fn plain(c: char) -> (r: bool)
    ensures
        r == is_plain(c),
{
    alnum(c) || c == '_' || c == '.' || c == '-'
}

fn dash(s: &[char]) -> (out: Vec<char>)
    ensures
        out@ == dashed(s@),
{
    let mut out: Vec<char> = Vec::new();
    let mut i: usize = 0;
    assert(s@.take(0) == Seq::<char>::empty());
    while i < s.len()
        invariant
            i <= s@.len(),
            out@ == dashed(s@.take(i as int)),
        decreases s.len() - i,
    {
        let c = s[i];
        proof {
            assert(s@.take(i + 1).drop_last() == s@.take(i as int));
            assert(s@.take(i + 1).last() == c);
            if i > 0 {
                assert(s@.take(i + 1)[i - 1] == s@[i - 1]);
            }
        }
        if plain(c) {
            out.push(c);
        } else if i == 0 || plain(s[i - 1]) {
            out.push('-');
        }
        i += 1;
    }
    assert(s@.take(i as int) == s@);
    out
}

fn cut_edges(s: &[char]) -> (out: Vec<char>)
    ensures
        out@ == without_tail(without_head(s@)),
{
    let mut from: usize = 0;
    assert(s@.skip(0) == s@);
    while from < s.len() && (s[from] == '-' || s[from] == '.')
        invariant
            from <= s@.len(),
            without_head(s@) == without_head(s@.skip(from as int)),
        decreases s.len() - from,
    {
        assert(s@.skip(from as int)[0] == s@[from as int]);
        assert(s@.skip(from as int).skip(1) == s@.skip(from + 1));
        from += 1;
    }
    let ghost rest = s@.skip(from as int);
    proof {
        if from < s@.len() {
            assert(rest[0] == s@[from as int]);
        }
        assert(without_head(s@) == rest);
    }
    let mut to: usize = s.len();
    assert(s@.subrange(from as int, to as int) == rest);
    while to > from && (s[to - 1] == '-' || s[to - 1] == '.')
        invariant
            from <= to <= s@.len(),
            without_tail(rest) == without_tail(s@.subrange(from as int, to as int)),
        decreases to,
    {
        let ghost now = s@.subrange(from as int, to as int);
        assert(now.last() == s@[to - 1]);
        assert(now.drop_last() == s@.subrange(from as int, to - 1));
        to -= 1;
    }
    let out = slice_of(s, from, to);
    proof {
        if to > from {
            assert(out@.last() == s@[to - 1]);
        }
    }
    out
}

proof fn dashed_is_plain(s: Seq<char>)
    ensures
        forall|i: int| 0 <= i < dashed(s).len() ==> is_plain(#[trigger] dashed(s)[i]),
    decreases s.len(),
{
    if s.len() > 0 {
        dashed_is_plain(s.drop_last());
        let before = dashed(s.drop_last());
        let all = dashed(s);
        assert forall|i: int| 0 <= i < all.len() implies is_plain(#[trigger] all[i]) by {
            if i < before.len() {
                assert(all[i] == before[i]);
            }
        }
    }
}

proof fn edges_are_cut(s: Seq<char>)
    requires
        forall|i: int| 0 <= i < s.len() ==> is_plain(#[trigger] s[i]),
    ensures
        ({
            let out = without_tail(without_head(s));
            &&& forall|i: int| 0 <= i < out.len() ==> is_plain(#[trigger] out[i])
            &&& out.len() > 0 ==> !is_edge(out[0]) && !is_edge(out.last())
        }),
{
    head_is_cut(s);
    tail_is_cut(without_head(s));
}

proof fn head_is_cut(s: Seq<char>)
    requires
        forall|i: int| 0 <= i < s.len() ==> is_plain(#[trigger] s[i]),
    ensures
        ({
            let out = without_head(s);
            &&& forall|i: int| 0 <= i < out.len() ==> is_plain(#[trigger] out[i])
            &&& out.len() > 0 ==> !is_edge(out[0])
        }),
    decreases s.len(),
{
    if s.len() > 0 && is_edge(s[0]) {
        head_is_cut(s.skip(1));
    }
}

proof fn tail_is_cut(s: Seq<char>)
    requires
        forall|i: int| 0 <= i < s.len() ==> is_plain(#[trigger] s[i]),
        s.len() > 0 ==> !is_edge(s[0]),
    ensures
        ({
            let out = without_tail(s);
            &&& forall|i: int| 0 <= i < out.len() ==> is_plain(#[trigger] out[i])
            &&& out.len() > 0 ==> !is_edge(out[0]) && !is_edge(out.last())
        }),
    decreases s.len(),
{
    if s.len() > 0 && is_edge(s.last()) {
        if s.len() > 1 {
            assert(s.drop_last()[0] == s[0]);
        }
        tail_is_cut(s.drop_last());
    }
}

proof fn hex_is_plain(bytes: Seq<u8>)
    ensures
        forall|i: int| 0 <= i < hex_text(bytes).len() ==> is_plain(#[trigger] hex_text(bytes)[i]),
    decreases bytes.len(),
{
    if bytes.len() > 0 {
        hex_is_plain(bytes.drop_last());
        let before = hex_text(bytes.drop_last());
        let all = hex_text(bytes);
        assert forall|i: int| 0 <= i < all.len() implies is_plain(#[trigger] all[i]) by {
            if i < before.len() {
                assert(all[i] == before[i]);
            }
        }
    }
}

/// A name of a file: never empty or long, of letters, digits, dashes, dots and underscores alone,
/// and without a dash or a dot at its start.
pub open spec fn is_safe_name(name: Seq<char>) -> bool {
    &&& 0 < name.len() <= 96
    &&& !is_edge(name[0])
    &&& forall|i: int| 0 <= i < name.len() ==> is_plain(#[trigger] name[i])
}

proof fn short_names_are_safe(value: Seq<char>)
    ensures
        name_of(value).len() > 0,
        !is_edge(name_of(value)[0]),
        forall|i: int| 0 <= i < name_of(value).len() ==> is_plain(#[trigger] name_of(value)[i]),
{
    dashed_is_plain(value);
    edges_are_cut(dashed(value));
    reveal_strlit("unknown-session");
}

/// Makes a name for a file out of a session.
pub fn safe_component(value: &str) -> (r: String)
    ensures
        r@ == component_of(value@),
        is_safe_name(r@),
{
    proof {
        short_names_are_safe(value@);
        reveal_strlit("-");
    }
    let clean = dash(chars_of(value).as_slice());
    let short = cut_edges(clean.as_slice());
    let named = if short.len() == 0 {
        chars_of("unknown-session")
    } else {
        short
    };
    assert(named@ == name_of(value@));
    if named.len() <= 96 {
        return string_of(named.as_slice());
    }
    let mut out = slice_of(named.as_slice(), 0, 80);
    assert(out@ == named@.take(80));
    append_str(&mut out, "-");
    let digest = fingerprint(value.as_bytes());
    let part = slice_of(digest.as_slice(), 0, 12);
    assert(part@ == digest@.take(12));
    append(&mut out, part.as_slice());
    proof {
        hex_is_plain(crate::digest::sha256_of(vstd::utf8::encode_utf8(value@)));
        assert(out@.len() == 93);
        assert(out@[0] == named@[0]);
        assert forall|i: int| 0 <= i < out@.len() implies is_plain(#[trigger] out@[i]) by {
            if i < 80 {
                assert(out@[i] == name_of(value@)[i]);
            } else if i == 80 {
                assert(out@[i] == '-');
            } else {
                assert(out@[i] == digest@[i - 81]);
            }
        }
    }
    string_of(out.as_slice())
}

/// A setting that says something.
pub open spec fn set_value(value: Option<Seq<char>>) -> Option<Seq<char>> {
    match value {
        Some(text) => if is_blank(text) {
            None
        } else {
            Some(text)
        },
        None => None,
    }
}

pub type SessionView = (Seq<char>, Seq<char>);

pub open spec fn session_view() -> spec_fn(AgentSession) -> SessionView {
    |s: AgentSession| (s.agent@, s.id@)
}

pub open spec fn session_views(sessions: Seq<AgentSession>) -> Seq<SessionView> {
    sessions.map_values(session_view())
}

/// The agent that a variable belongs to: its first word, in lowercase.
pub open spec fn agent_named(variable: Seq<char>) -> Seq<char> {
    ascii_lowered(before_char(variable, '_'))
}

pub fn agent_of(variable: &str) -> (r: String)
    ensures
        r@ == agent_named(variable@),
{
    let word = cut_before(chars_of(variable).as_slice(), '_');
    string_of(lower_ascii(word.as_slice()).as_slice())
}

/// The sessions that the environment names. Two names of one session must agree.
pub open spec fn sessions_of(
    codex: Option<Seq<char>>,
    thread: Option<Seq<char>>,
    claude: Option<Seq<char>>,
) -> Result<Seq<SessionView>, Seq<char>> {
    let a = set_value(codex);
    let b = set_value(thread);
    let c = set_value(claude);
    if a is Some && b is Some && a != b {
        Err(
            "CODEX_SESSION_ID and CODEX_THREAD_ID disagree; refusing to attach ambiguous agent context"@,
        )
    } else {
        let first = match (a, b) {
            (Some(id), _) => seq![("codex"@, component_of(id))],
            (None, Some(id)) => seq![("codex"@, component_of(id))],
            (None, None) => Seq::empty(),
        };
        let second = match c {
            Some(id) => seq![(agent_named(CLAUDE_SESSION@), component_of(id))],
            None => Seq::empty(),
        };
        if first.len() + second.len() == 0 {
            Err(
                "agent context is required, but neither CODEX_SESSION_ID/CODEX_THREAD_ID nor CLAUDE_CODE_SESSION_ID is set; run the benchmark from an agent"@,
            )
        } else {
            Ok(first + second)
        }
    }
}

pub fn set_text(value: &Option<String>) -> (r: Option<&String>)
    ensures
        match r {
            Some(text) => set_value(text_option(*value)) == Some(text@),
            None => set_value(text_option(*value)) is None,
        },
{
    match value {
        Some(text) => if blank(text.as_str()) {
            None
        } else {
            Some(text)
        },
        None => None,
    }
}

/// The sessions that the agents export. Both may be there, where one agent was started from the
/// shell of the other.
pub fn current_sessions(codex: Option<String>, thread: Option<String>, claude: Option<String>) -> (r:
    Result<Vec<AgentSession>, String>)
    ensures
        match r {
            Ok(sessions) => sessions_of(
                text_option(codex),
                text_option(thread),
                text_option(claude),
            ) == Ok::<Seq<SessionView>, Seq<char>>(session_views(sessions@)),
            Err(error) => sessions_of(
                text_option(codex),
                text_option(thread),
                text_option(claude),
            ) == Err::<Seq<SessionView>, Seq<char>>(error@),
        },
{
    let a = set_text(&codex);
    let b = set_text(&thread);
    match (a, b) {
        (Some(x), Some(y)) => {
            if !same(x.as_str(), y.as_str()) {
                return Err(
                    "CODEX_SESSION_ID and CODEX_THREAD_ID disagree; refusing to attach ambiguous agent context".to_owned(),
                );
            }
        },
        _ => {},
    }
    let mut sessions: Vec<AgentSession> = Vec::new();
    let ghost empty = session_views(sessions@);
    assert(empty == Seq::<SessionView>::empty());
    let named = match a {
        Some(id) => Some(id),
        None => b,
    };
    match named {
        Some(id) => {
            sessions.push(AgentSession { agent: CODEX.to_owned(), id: safe_component(id.as_str()) });
            assert(session_views(sessions@) == seq![("codex"@, component_of(id@))]);
        },
        None => {},
    }
    let ghost first = session_views(sessions@);
    match set_text(&claude) {
        Some(id) => {
            let session = AgentSession {
                agent: agent_of(CLAUDE_SESSION),
                id: safe_component(id.as_str()),
            };
            sessions.push(session);
            assert(session_views(sessions@) == first + seq![
                (agent_named(CLAUDE_SESSION@), component_of(id@)),
            ]);
        },
        None => {
            assert(first + Seq::<SessionView>::empty() == first);
        },
    }
    assert(session_views(sessions@).len() == sessions@.len());
    if sessions.len() == 0 {
        return Err(
            "agent context is required, but neither CODEX_SESSION_ID/CODEX_THREAD_ID nor CLAUDE_CODE_SESSION_ID is set; run the benchmark from an agent".to_owned(),
        );
    }
    Ok(sessions)
}

/// What stands between two marks on a line, where something does.
pub open spec fn between(line: Seq<char>, head: Seq<char>, tail: Seq<char>) -> Option<Seq<char>> {
    match strip_prefix(line, head) {
        Some(rest) => match strip_suffix(rest, tail) {
            Some(value) => if value.len() == 0 {
                None
            } else {
                Some(value)
            },
            None => None,
        },
        None => None,
    }
}

pub fn text_between(line: &[char], head: &[char], tail: &[char]) -> (r: Option<Vec<char>>)
    ensures
        chars_option(r) == between(line@, head@, tail@),
{
    match stripped_prefix(line, head) {
        Some(rest) => match stripped_suffix(rest.as_slice(), tail) {
            Some(value) => if value.len() == 0 {
                None
            } else {
                Some(value)
            },
            None => None,
        },
        None => None,
    }
}

pub open spec fn pick_between(head: Seq<char>, tail: Seq<char>) -> spec_fn(Seq<char>) -> Option<
    Seq<char>,
> {
    |line: Seq<char>| between(line, head, tail)
}

/// The first of the lines that has something between the marks.
pub fn first_between(lines_here: &Vec<Vec<char>>, count: usize, head: &[char], tail: &[char]) -> (r:
    Option<Vec<char>>)
    requires
        count <= lines_here@.len(),
    ensures
        chars_option(r) == first_picked(
            views(lines_here@).take(count as int),
            pick_between(head@, tail@),
        ),
{
    let ghost all = views(lines_here@).take(count as int);
    let mut i: usize = 0;
    assert(all.skip(0) == all);
    while i < count
        invariant
            i <= count <= lines_here@.len(),
            all == views(lines_here@).take(count as int),
            first_picked(all, pick_between(head@, tail@)) == first_picked(
                all.skip(i as int),
                pick_between(head@, tail@),
            ),
        decreases count - i,
    {
        assert(all.skip(i as int)[0] == lines_here@[i as int]@);
        assert(all.skip(i as int).skip(1) == all.skip(i + 1));
        match text_between(lines_here[i].as_slice(), head, tail) {
            Some(value) => {
                return Some(value);
            },
            None => {},
        }
        i += 1;
    }
    None
}

/// How many lines of a history are its head.
pub const HEADER_LINES: usize = 16;

/// The value of a header of a history.
pub open spec fn header_of(text: Seq<char>, name: Seq<char>) -> Option<Seq<char>> {
    let all = lines(text);
    first_picked(
        if all.len() > HEADER_LINES {
            all.take(HEADER_LINES as int)
        } else {
            all
        },
        pick_between("- "@ + name + ": `"@, "`"@),
    )
}

pub fn header_value(text: &str, name: &str) -> (r: Option<String>)
    ensures
        text_option(r) == header_of(text@, name@),
{
    let all = lines_of(chars_of(text).as_slice());
    assert(views(all@).len() == all@.len());
    let count = if all.len() > HEADER_LINES {
        HEADER_LINES
    } else {
        all.len()
    };
    let head = glue3("- ", name, ": `");
    assert(all@.len() <= HEADER_LINES ==> views(all@).take(count as int) == views(all@));
    match first_between(
        &all,
        count,
        chars_of(head.as_str()).as_slice(),
        chars_of("`").as_slice(),
    ) {
        Some(value) => Some(string_of(value.as_slice())),
        None => None,
    }
}

/// A history of this session. One that names no agent is a conversation with Codex.
pub open spec fn belongs(text: Seq<char>, session: SessionView) -> bool {
    header_of(text, "Session"@) == Some(session.1) && (match header_of(text, "Agent"@) {
        Some(agent) => agent,
        None => "codex"@,
    }) == session.0
}

pub fn history_belongs_to_session(text: &str, session: &AgentSession) -> (r: bool)
    ensures
        r == belongs(text@, session_view()(*session)),
{
    match header_value(text, "Session") {
        Some(id) => {
            if !same(id.as_str(), session.id.as_str()) {
                return false;
            }
        },
        None => {
            return false;
        },
    }
    match header_value(text, "Agent") {
        Some(agent) => same(agent.as_str(), session.agent.as_str()),
        None => same(CODEX, session.agent.as_str()),
    }
}

/// The input that a line of a history marks. Codex had a mark of its own before.
pub open spec fn marked_input(session: SessionView) -> spec_fn(Seq<char>) -> Option<Seq<char>> {
    |line: Seq<char>|
        {
            let current = strip_prefix(
                line,
                "<!-- agent-event:"@ + session.0 + ":"@ + session.1 + ":"@,
            );
            let legacy = if session.0 == "codex"@ {
                strip_prefix(line, "<!-- codex-event:"@ + session.1 + ":"@)
            } else {
                None
            };
            let rest = if current is Some {
                current
            } else {
                legacy
            };
            match rest {
                Some(value) => match strip_suffix(value, ":user -->"@) {
                    Some(id) => if id.len() == 0 {
                        None
                    } else {
                        Some(id)
                    },
                    None => None,
                },
                None => None,
            }
        }
}

fn read_mark(line: &[char], session: &AgentSession) -> (r: Option<Vec<char>>)
    ensures
        chars_option(r) == marked_input(session_view()(*session))(line@),
{
    let current = glue5("<!-- agent-event:", session.agent.as_str(), ":", session.id.as_str(), ":");
    let rest = match stripped_prefix(line, chars_of(current.as_str()).as_slice()) {
        Some(rest) => Some(rest),
        None => if same(session.agent.as_str(), CODEX) {
            let legacy = glue3("<!-- codex-event:", session.id.as_str(), ":");
            stripped_prefix(line, chars_of(legacy.as_str()).as_slice())
        } else {
            None
        },
    };
    match rest {
        Some(value) => match stripped_suffix(value.as_slice(), chars_of(":user -->").as_slice()) {
            Some(id) => if id.len() == 0 {
                None
            } else {
                Some(id)
            },
            None => None,
        },
        None => None,
    }
}

/// The latest input of the user in a session.
pub open spec fn latest_input(text: Seq<char>, session: SessionView) -> Option<Seq<char>> {
    last_picked(lines(text), marked_input(session))
}

pub fn latest_user_input_id(text: &str, session: &AgentSession) -> (r: Option<String>)
    ensures
        text_option(r) == latest_input(text@, session_view()(*session)),
{
    let all = lines_of(chars_of(text).as_slice());
    let ghost lines_here = lines(text@);
    let ghost pick = marked_input(session_view()(*session));
    let mut i: usize = all.len();
    assert(views(all@).len() == all@.len());
    assert(lines_here.take(i as int) == lines_here);
    while i > 0
        invariant
            i <= all@.len(),
            lines_here == views(all@),
            lines_here == lines(text@),
            pick == marked_input(session_view()(*session)),
            last_picked(lines_here, pick) == last_picked(lines_here.take(i as int), pick),
        decreases i,
    {
        assert(lines_here.take(i as int).last() == all@[i - 1]@);
        assert(lines_here.take(i as int).drop_last() == lines_here.take(i - 1));
        match read_mark(all[i - 1].as_slice(), session) {
            Some(id) => {
                return Some(string_of(id.as_slice()));
            },
            None => {},
        }
        i -= 1;
    }
    None
}

/// A file of a history directory.
#[derive(Clone, Debug)]
pub struct HistoryFile {
    pub path: String,
    pub bytes: Vec<u8>,
}

pub open spec fn is_text(file: HistoryFile) -> bool {
    vstd::utf8::valid_utf8(file.bytes@)
}

pub open spec fn text_of(file: HistoryFile) -> Seq<char> {
    vstd::utf8::decode_utf8(file.bytes@)
}

/// The first file that is not text.
pub open spec fn pick_broken(what: Seq<char>) -> spec_fn(HistoryFile) -> Option<Seq<char>> {
    |file: HistoryFile|
        if is_text(file) {
            None
        } else {
            Some(what + " history is not UTF-8: "@ + file.path@)
        }
}

/// The place of a session in the files: the first file of the session is found first.
pub open spec fn owners(files: Seq<HistoryFile>, sessions: Seq<SessionView>) -> Seq<(int, int)>
    decreases files.len(),
{
    if files.len() == 0 {
        Seq::empty()
    } else {
        owners(files.drop_last(), sessions) + owners_of(
            files.len() - 1,
            text_of(files.last()),
            sessions,
        )
    }
}

/// The sessions that a text belongs to.
pub open spec fn owners_of(file: int, text: Seq<char>, sessions: Seq<SessionView>) -> Seq<(int, int)>
    decreases sessions.len(),
{
    if sessions.len() == 0 {
        Seq::empty()
    } else {
        let before = owners_of(file, text, sessions.drop_last());
        if belongs(text, sessions.last()) {
            before.push((file, sessions.len() - 1))
        } else {
            before
        }
    }
}

pub open spec fn described(sessions: Seq<SessionView>) -> Seq<char> {
    join(sessions.map_values(|s: SessionView| s.0 + " `"@ + s.1 + "`"@), ", "@)
}

#[verifier::ext_equal]
pub struct ContextView {
    pub agent: Seq<char>,
    pub history_path: Seq<char>,
    pub session_id: Seq<char>,
    pub input_id: Seq<char>,
    pub snapshot_path: Seq<char>,
    pub sha256: Seq<char>,
}

impl View for AgentContext {
    type V = ContextView;

    open spec fn view(&self) -> ContextView {
        ContextView {
            agent: self.agent@,
            history_path: self.history_path@,
            session_id: self.session_id@,
            input_id: self.input_id@,
            snapshot_path: self.snapshot_path@,
            sha256: self.sha256@,
        }
    }
}

/// The directory lies in the repository, or is it.
pub open spec fn is_inside(base: Seq<char>, path: Seq<char>) -> bool {
    path == base || below(base, path) is Some
}

/// What a file of one session comes to.
pub open spec fn context_in(
    source_repo: Seq<char>,
    file: HistoryFile,
    session: SessionView,
) -> Result<ContextView, Seq<char>> {
    match latest_input(text_of(file), session) {
        None => Err(
            "agent history "@ + file.path@ + " has no User input marker for current "@ + session.0
                + " session `"@ + session.1 + "`"@,
        ),
        Some(input_id) => match below(source_repo, file.path@) {
            None => Err(
                "agent history "@ + file.path@ + " is outside source repository "@ + source_repo,
            ),
            Some(history_path) => Ok(
                ContextView {
                    agent: session.0,
                    history_path,
                    session_id: session.1,
                    input_id,
                    snapshot_path: "context/agent-history.md"@,
                    sha256: fingerprint_of(file.bytes@),
                },
            ),
        },
    }
}

/// The conversation that the current sessions belong to: exactly one file of the directory, and one
/// of the sessions.
pub open spec fn context_of(
    source_repo: Seq<char>,
    history_dir: Seq<char>,
    sessions: Seq<SessionView>,
    files: Seq<HistoryFile>,
) -> Result<ContextView, Seq<char>> {
    let broken = first_picked(files, pick_broken("agent"@));
    let found = owners(files, sessions);
    if !is_inside(source_repo, history_dir) {
        Err("agent history directory must remain inside source repository "@ + source_repo)
    } else if broken is Some {
        Err(broken->0)
    } else if found.len() == 0 {
        Err(
            "no agent history file in "@ + history_dir + " belongs to current session "@
                + described(sessions)
                + "; ensure the UserPromptSubmit hook was active before starting this session"@,
        )
    } else if found.len() > 1 {
        Err(
            "multiple agent history files in "@ + history_dir + " belong to current session "@
                + described(sessions),
        )
    } else {
        context_in(source_repo, files[found[0].0], sessions[found[0].1])
    }
}

pub fn inside(base: &str, path: &str) -> (r: bool)
    ensures
        r == is_inside(base@, path@),
{
    same(path, base) || path_below(base, path).is_some()
}

fn describe_sessions(sessions: &Vec<AgentSession>) -> (r: String)
    ensures
        r@ == described(session_views(sessions@)),
{
    let ghost each = |s: SessionView| s.0 + " `"@ + s.1 + "`"@;
    let ghost all = session_views(sessions@).map_values(each);
    let mut parts: Vec<Vec<char>> = Vec::new();
    let mut i: usize = 0;
    assert(views(parts@) == all.take(0));
    while i < sessions.len()
        invariant
            i <= sessions@.len(),
            each == (|s: SessionView| s.0 + " `"@ + s.1 + "`"@),
            all == session_views(sessions@).map_values(each),
            views(parts@) == all.take(i as int),
        decreases sessions.len() - i,
    {
        let ghost was = parts@;
        let head = glue2(sessions[i].agent.as_str(), " `");
        let text = glue3(head.as_str(), sessions[i].id.as_str(), "`");
        parts.push(chars_of(text.as_str()));
        assert(views(parts@) == views(was).push(text@));
        assert(all[i as int] == text@);
        assert(all.take(i + 1) == all.take(i as int).push(all[i as int]));
        i += 1;
    }
    assert(all.take(i as int) == all);
    string_of(joined(parts.as_slice(), chars_of(", ").as_slice()).as_slice())
}

/// The texts of the files, or what is said of the first that is not text.
pub fn read_histories(files: &Vec<HistoryFile>, what: &str) -> (r: Result<Vec<String>, String>)
    ensures
        match r {
            Ok(found) => {
                &&& first_picked(files@, pick_broken(what@)) is None
                &&& found@.len() == files@.len()
                &&& forall|i: int| 0 <= i < files@.len() ==> #[trigger] found@[i]@ == text_of(files@[i])
            },
            Err(error) => first_picked(files@, pick_broken(what@)) == Some(error@),
        },
{
    let mut out: Vec<String> = Vec::new();
    let mut i: usize = 0;
    assert(files@.skip(0) == files@);
    while i < files.len()
        invariant
            i <= files@.len(),
            out@.len() == i,
            forall|j: int| 0 <= j < i ==> #[trigger] out@[j]@ == text_of(files@[j]),
            first_picked(files@, pick_broken(what@)) == first_picked(
                files@.skip(i as int),
                pick_broken(what@),
            ),
        decreases files.len() - i,
    {
        assert(files@.skip(i as int)[0] == files@[i as int]);
        assert(files@.skip(i as int).skip(1) == files@.skip(i + 1));
        match text_from_bytes(files[i].bytes.as_slice()) {
            Some(text) => {
                out.push(text);
            },
            None => {
                return Err(glue3(what, " history is not UTF-8: ", files[i].path.as_str()));
            },
        }
        i += 1;
    }
    Ok(out)
}

pub open spec fn place_views(found: Seq<(usize, usize)>) -> Seq<(int, int)> {
    found.map_values(|p: (usize, usize)| (p.0 as int, p.1 as int))
}

/// The places of the owners lie in the lists.
proof fn owners_are_places(files: Seq<HistoryFile>, sessions: Seq<SessionView>)
    ensures
        forall|i: int|
            0 <= i < owners(files, sessions).len() ==> 0 <= (#[trigger] owners(files, sessions)[i]).0
                < files.len() && 0 <= owners(files, sessions)[i].1 < sessions.len(),
    decreases files.len(),
{
    if files.len() > 0 {
        owners_are_places(files.drop_last(), sessions);
        let file = files.len() - 1;
        let text = text_of(files.last());
        owners_of_places(file, text, sessions);
        let before = owners(files.drop_last(), sessions);
        let own = owners_of(file, text, sessions);
        let all = owners(files, sessions);
        assert forall|i: int| 0 <= i < all.len() implies 0 <= (#[trigger] all[i]).0 < files.len()
            && 0 <= all[i].1 < sessions.len() by {
            if i < before.len() {
                assert(all[i] == before[i]);
            } else {
                assert(all[i] == own[i - before.len()]);
            }
        }
    }
}

proof fn owners_of_places(file: int, text: Seq<char>, sessions: Seq<SessionView>)
    ensures
        forall|i: int|
            0 <= i < owners_of(file, text, sessions).len() ==> (#[trigger] owners_of(
                file,
                text,
                sessions,
            )[i]).0 == file && 0 <= owners_of(file, text, sessions)[i].1 < sessions.len(),
    decreases sessions.len(),
{
    if sessions.len() > 0 {
        owners_of_places(file, text, sessions.drop_last());
        let before = owners_of(file, text, sessions.drop_last());
        let all = owners_of(file, text, sessions);
        assert forall|i: int| 0 <= i < all.len() implies (#[trigger] all[i]).0 == file && 0
            <= all[i].1 < sessions.len() by {
            if i < before.len() {
                assert(all[i] == before[i]);
            }
        }
    }
}

fn find_owners(files: &Vec<HistoryFile>, found_texts: &Vec<String>, sessions: &Vec<AgentSession>) -> (
    r: Vec<(usize, usize)>)
    requires
        found_texts@.len() == files@.len(),
        forall|i: int| 0 <= i < files@.len() ==> #[trigger] found_texts@[i]@ == text_of(files@[i]),
    ensures
        place_views(r@) == owners(files@, session_views(sessions@)),
{
    let ghost all = session_views(sessions@);
    let mut out: Vec<(usize, usize)> = Vec::new();
    let mut i: usize = 0;
    assert(files@.take(0) == Seq::<HistoryFile>::empty());
    assert(place_views(out@) == owners(files@.take(0), all));
    while i < files.len()
        invariant
            i <= files@.len(),
            found_texts@.len() == files@.len(),
            forall|k: int|
                0 <= k < files@.len() ==> #[trigger] found_texts@[k]@ == text_of(files@[k]),
            all == session_views(sessions@),
            place_views(out@) == owners(files@.take(i as int), all),
        decreases files.len() - i,
    {
        let ghost start = place_views(out@);
        let ghost text = text_of(files@[i as int]);
        assert(found_texts@[i as int]@ == text);
        proof {
            assert(files@.take(i + 1).drop_last() == files@.take(i as int));
            assert(files@.take(i + 1).last() == files@[i as int]);
            assert(all.take(0) == Seq::<SessionView>::empty());
            assert(start + owners_of(i as int, text, all.take(0)) == start);
        }
        let mut j: usize = 0;
        while j < sessions.len()
            invariant
                j <= sessions@.len(),
                i < files@.len(),
                found_texts@.len() == files@.len(),
                all == session_views(sessions@),
                text == found_texts@[i as int]@,
                place_views(out@) == start + owners_of(i as int, text, all.take(j as int)),
            decreases sessions.len() - j,
        {
            let ghost was = out@;
            let ghost head = owners_of(i as int, text, all.take(j as int));
            proof {
                assert(all[j as int] == session_view()(sessions@[j as int]));
                assert(all.take(j + 1).drop_last() == all.take(j as int));
                assert(all.take(j + 1).last() == all[j as int]);
            }
            if history_belongs_to_session(found_texts[i].as_str(), &sessions[j]) {
                out.push((i, j));
                assert(place_views(out@) == place_views(was).push((i as int, j as int)));
                assert(start + head.push((i as int, j as int)) == (start + head).push(
                    (i as int, j as int),
                ));
            }
            j += 1;
        }
        assert(all.take(j as int) == all);
        i += 1;
    }
    assert(files@.take(i as int) == files@);
    out
}

fn context_from(source_repo: &str, file: &HistoryFile, text: &str, session: &AgentSession) -> (r:
    Result<ResolvedAgentContext, String>)
    requires
        text@ == text_of(*file),
    ensures
        match r {
            Ok(context) => context_in(source_repo@, *file, session_view()(*session)) == Ok::<
                ContextView,
                Seq<char>,
            >(context.metadata@) && context.bytes@ == file.bytes@,
            Err(error) => context_in(source_repo@, *file, session_view()(*session)) == Err::<
                ContextView,
                Seq<char>,
            >(error@),
        },
{
    let input_id = match latest_user_input_id(text, session) {
        Some(id) => id,
        None => {
            let head = glue5(
                "agent history ",
                file.path.as_str(),
                " has no User input marker for current ",
                session.agent.as_str(),
                " session `",
            );
            return Err(glue3(head.as_str(), session.id.as_str(), "`"));
        },
    };
    let history_path = match path_below(source_repo, file.path.as_str()) {
        Some(path) => path,
        None => {
            let head = glue3("agent history ", file.path.as_str(), " is outside source repository ");
            return Err(glue2(head.as_str(), source_repo));
        },
    };
    let sha256 = string_of(fingerprint(file.bytes.as_slice()).as_slice());
    let bytes = crate::bytes::bytes_between(file.bytes.as_slice(), 0, file.bytes.len());
    assert(bytes@ == file.bytes@);
    Ok(
        ResolvedAgentContext {
            metadata: AgentContext {
                agent: session.agent.clone(),
                history_path,
                session_id: session.id.clone(),
                input_id,
                snapshot_path: SNAPSHOT_PATH.to_owned(),
                sha256,
            },
            bytes,
        },
    )
}

/// Finds the conversation that the current sessions belong to among the files of a directory.
pub fn resolve(
    source_repo: &str,
    history_dir: &str,
    sessions: &Vec<AgentSession>,
    files: &Vec<HistoryFile>,
) -> (r: Result<ResolvedAgentContext, String>)
    ensures
        match r {
            Ok(context) => {
                &&& context_of(
                    source_repo@,
                    history_dir@,
                    session_views(sessions@),
                    files@,
                ) == Ok::<ContextView, Seq<char>>(context.metadata@)
                &&& context.metadata.sha256@ == fingerprint_of(context.bytes@)
            },
            Err(error) => context_of(
                source_repo@,
                history_dir@,
                session_views(sessions@),
                files@,
            ) == Err::<ContextView, Seq<char>>(error@),
        },
{
    if !inside(source_repo, history_dir) {
        return Err(
            glue2("agent history directory must remain inside source repository ", source_repo),
        );
    }
    let found_texts = match read_histories(files, "agent") {
        Ok(found) => found,
        Err(error) => {
            return Err(error);
        },
    };
    let found = find_owners(files, &found_texts, sessions);
    proof {
        owners_are_places(files@, session_views(sessions@));
        assert(place_views(found@).len() == found@.len());
    }
    let names = describe_sessions(sessions);
    if found.len() == 0 {
        return Err(
            glue5(
                "no agent history file in ",
                history_dir,
                " belongs to current session ",
                names.as_str(),
                "; ensure the UserPromptSubmit hook was active before starting this session",
            ),
        );
    }
    if found.len() > 1 {
        let head = glue3(
            "multiple agent history files in ",
            history_dir,
            " belong to current session ",
        );
        return Err(glue2(head.as_str(), names.as_str()));
    }
    let (file, session) = found[0];
    assert(place_views(found@)[0] == (file as int, session as int));
    assert(session_views(sessions@).len() == sessions@.len());
    assert(session_views(sessions@)[session as int] == session_view()(sessions@[session as int]));
    context_from(source_repo, &files[file], found_texts[file].as_str(), &sessions[session])
}

pub open spec fn pick_session() -> spec_fn(HistoryFile) -> Option<()> {
    |file: HistoryFile|
        if header_of(text_of(file), "Session"@) is Some {
            Some(())
        } else {
            None
        }
}

/// Counts the files that name their session.
pub fn valid_history_files(files: &Vec<HistoryFile>) -> (r: Result<usize, String>)
    ensures
        match r {
            Ok(count) => first_picked(files@, pick_broken("agent"@)) is None && count
                == crate::protocol::picked(files@, pick_session()).len(),
            Err(error) => first_picked(files@, pick_broken("agent"@)) == Some(error@),
        },
{
    let found_texts = match read_histories(files, "agent") {
        Ok(found) => found,
        Err(error) => {
            return Err(error);
        },
    };
    let mut count: usize = 0;
    let mut i: usize = 0;
    assert(files@.take(0) == Seq::<HistoryFile>::empty());
    while i < files.len()
        invariant
            i <= files@.len(),
            count <= i,
            found_texts@.len() == files@.len(),
            forall|k: int|
                0 <= k < files@.len() ==> #[trigger] found_texts@[k]@ == text_of(files@[k]),
            count == crate::protocol::picked(files@.take(i as int), pick_session()).len(),
        decreases files.len() - i,
    {
        proof {
            assert(found_texts@[i as int]@ == text_of(files@[i as int]));
            assert(files@.take(i + 1).drop_last() == files@.take(i as int));
            assert(files@.take(i + 1).last() == files@[i as int]);
        }
        if header_value(found_texts[i].as_str(), "Session").is_some() {
            count += 1;
        }
        i += 1;
    }
    assert(files@.take(i as int) == files@);
    Ok(count)
}

} // verus!
