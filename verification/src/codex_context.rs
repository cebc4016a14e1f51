//! The conversation with Codex that a run belongs to.
use crate::agent_context::{
    component_of, first_between, inside, is_inside, pick_between, pick_broken, read_histories,
    safe_component, set_text, set_value, text_between, text_of, HistoryFile,
};
use crate::digest::{fingerprint, fingerprint_of};
use crate::paths::{below, path_below};
use crate::protocol::{first_picked, last_picked, picked};
use crate::report::text_option;
use crate::text::{chars_of, glue2, glue3, glue5, lines, lines_of, same, string_of, views};
use vstd::prelude::*;

verus! {

/// Where the conversation is kept in a run.
pub const SNAPSHOT_PATH: &'static str = "context/codex-history.md";

/// What a run keeps of the conversation.
#[derive(Clone, Debug, PartialEq, Eq)]
pub struct CodexContext {
    pub history_path: String,
    pub session_id: String,
    pub input_id: String,
    pub snapshot_path: String,
    pub sha256: String,
}

/// The conversation of a run, with the file that it was read from.
#[derive(Debug)]
pub struct ResolvedCodexContext {
    pub metadata: CodexContext,
    pub bytes: Vec<u8>,
}

/// The session that the settings of the process name, as part of a file name.
pub open spec fn session_id_of(session: Option<Seq<char>>, thread: Option<Seq<char>>) -> Result<
    Seq<char>,
    Seq<char>,
> {
    let one = set_value(session);
    let other = set_value(thread);
    if one is Some && other is Some && one != other {
        Err(
            "CODEX_SESSION_ID and CODEX_THREAD_ID disagree; refusing to attach ambiguous Codex context"@,
        )
    } else if one is Some {
        Ok(component_of(one->0))
    } else if other is Some {
        Ok(component_of(other->0))
    } else {
        Err(
            "Codex context is required, but CODEX_SESSION_ID/CODEX_THREAD_ID is not set; run the benchmark from Codex"@,
        )
    }
}

pub open spec fn text_result(r: Result<String, String>) -> Result<Seq<char>, Seq<char>> {
    match r {
        Ok(text) => Ok(text@),
        Err(error) => Err(error@),
    }
}

/// The session that `CODEX_SESSION_ID` and `CODEX_THREAD_ID` name.
pub fn current_session_id(session: Option<String>, thread: Option<String>) -> (r: Result<
    String,
    String,
>)
    ensures
        text_result(r) == session_id_of(text_option(session), text_option(thread)),
{
    let one = set_text(&session);
    let other = set_text(&thread);
    match one {
        Some(a) => {
            match other {
                Some(b) => {
                    if !same(a.as_str(), b.as_str()) {
                        return Err(
                            "CODEX_SESSION_ID and CODEX_THREAD_ID disagree; refusing to attach ambiguous Codex context".to_owned(),
                        );
                    }
                },
                None => {},
            }
            Ok(safe_component(a.as_str()))
        },
        None => match other {
            Some(b) => Ok(safe_component(b.as_str())),
            None => Err(
                "Codex context is required, but CODEX_SESSION_ID/CODEX_THREAD_ID is not set; run the benchmark from Codex".to_owned(),
            ),
        },
    }
}

/// The session that a history names.
pub open spec fn header_session(text: Seq<char>) -> Option<Seq<char>> {
    first_picked(lines(text), pick_between("- Session: `"@, "`"@))
}

pub fn session_from_header(text: &str) -> (r: Option<String>)
    ensures
        text_option(r) == header_session(text@),
{
    let all = lines_of(chars_of(text).as_slice());
    assert(views(all@).len() == all@.len());
    assert(views(all@).take(all@.len() as int) == views(all@));
    match first_between(
        &all,
        all.len(),
        chars_of("- Session: `").as_slice(),
        chars_of("`").as_slice(),
    ) {
        Some(value) => Some(string_of(value.as_slice())),
        None => None,
    }
}

pub fn history_belongs_to_session(text: &str, session_id: &str) -> (r: bool)
    ensures
        r == (header_session(text@) == Some(session_id@)),
{
    match session_from_header(text) {
        Some(id) => same(id.as_str(), session_id),
        None => false,
    }
}

/// The latest input of the user in a session.
pub open spec fn latest_input(text: Seq<char>, session_id: Seq<char>) -> Option<Seq<char>> {
    last_picked(
        lines(text),
        pick_between("<!-- codex-event:"@ + session_id + ":"@, ":user -->"@),
    )
}

pub fn latest_user_input_id(text: &str, session_id: &str) -> (r: Option<String>)
    ensures
        text_option(r) == latest_input(text@, session_id@),
{
    let head = chars_of(glue3("<!-- codex-event:", session_id, ":").as_str());
    let tail = chars_of(":user -->");
    let all = lines_of(chars_of(text).as_slice());
    let ghost lines_here = lines(text@);
    let ghost pick = pick_between(head@, tail@);
    let mut i: usize = all.len();
    assert(views(all@).len() == all@.len());
    assert(lines_here.take(i as int) == lines_here);
    while i > 0
        invariant
            i <= all@.len(),
            lines_here == views(all@),
            pick == pick_between(head@, tail@),
            last_picked(lines_here, pick) == last_picked(lines_here.take(i as int), pick),
            latest_input(text@, session_id@) == last_picked(lines_here, pick),
        decreases i,
    {
        assert(lines_here.take(i as int).last() == all@[i - 1]@);
        assert(lines_here.take(i as int).drop_last() == lines_here.take(i - 1));
        match text_between(all[i - 1].as_slice(), head.as_slice(), tail.as_slice()) {
            Some(id) => {
                return Some(string_of(id.as_slice()));
            },
            None => {},
        }
        i -= 1;
    }
    None
}

/// The files of a session.
pub open spec fn own_files(files: Seq<HistoryFile>, session_id: Seq<char>) -> Seq<int>
    decreases files.len(),
{
    if files.len() == 0 {
        Seq::empty()
    } else {
        let before = own_files(files.drop_last(), session_id);
        if header_session(text_of(files.last())) == Some(session_id) {
            before.push(files.len() - 1)
        } else {
            before
        }
    }
}

#[verifier::ext_equal]
pub struct CodexView {
    pub history_path: Seq<char>,
    pub session_id: Seq<char>,
    pub input_id: Seq<char>,
    pub snapshot_path: Seq<char>,
    pub sha256: Seq<char>,
}

impl View for CodexContext {
    type V = CodexView;

    open spec fn view(&self) -> CodexView {
        CodexView {
            history_path: self.history_path@,
            session_id: self.session_id@,
            input_id: self.input_id@,
            snapshot_path: self.snapshot_path@,
            sha256: self.sha256@,
        }
    }
}

/// What a file of the session comes to.
pub open spec fn context_in(
    source_repo: Seq<char>,
    file: HistoryFile,
    session_id: Seq<char>,
) -> Result<CodexView, Seq<char>> {
    match latest_input(text_of(file), session_id) {
        None => Err(
            "Codex history "@ + file.path@ + " has no User input marker for current session `"@
                + session_id + "`"@,
        ),
        Some(input_id) => match below(source_repo, file.path@) {
            None => Err(
                "Codex history "@ + file.path@ + " is outside source repository "@ + source_repo,
            ),
            Some(history_path) => Ok(
                CodexView {
                    history_path,
                    session_id,
                    input_id,
                    snapshot_path: "context/codex-history.md"@,
                    sha256: fingerprint_of(file.bytes@),
                },
            ),
        },
    }
}

/// The conversation that the current session belongs to: exactly one file of the directory.
pub open spec fn context_of(
    source_repo: Seq<char>,
    history_dir: Seq<char>,
    session_id: Seq<char>,
    files: Seq<HistoryFile>,
) -> Result<CodexView, Seq<char>> {
    let broken = first_picked(files, pick_broken("Codex"@));
    let found = own_files(files, session_id);
    if !is_inside(source_repo, history_dir) {
        Err("Codex history directory must remain inside source repository "@ + source_repo)
    } else if broken is Some {
        Err(broken->0)
    } else if found.len() == 0 {
        Err(
            "no Codex history file in "@ + history_dir + " belongs to current session `"@
                + session_id
                + "`; ensure the UserPromptSubmit hook was active before starting this session"@,
        )
    } else if found.len() > 1 {
        Err(
            "multiple Codex history files in "@ + history_dir + " belong to current session `"@
                + session_id + "`"@,
        )
    } else {
        context_in(source_repo, files[found[0]], session_id)
    }
}

/// How many files belong to the session, and the first of them.
fn find_own(files: &Vec<HistoryFile>, found_texts: &Vec<String>, session_id: &str) -> (r: Vec<usize>)
    requires
        found_texts@.len() == files@.len(),
        forall|i: int| 0 <= i < files@.len() ==> #[trigger] found_texts@[i]@ == text_of(files@[i]),
    ensures
        r@.map_values(|i: usize| i as int) == own_files(files@, session_id@),
        forall|i: int| 0 <= i < r@.len() ==> #[trigger] r@[i] < files@.len(),
{
    let mut out: Vec<usize> = Vec::new();
    let mut i: usize = 0;
    assert(files@.take(0) == Seq::<HistoryFile>::empty());
    assert(out@.map_values(|i: usize| i as int) == own_files(files@.take(0), session_id@));
    while i < files.len()
        invariant
            i <= files@.len(),
            found_texts@.len() == files@.len(),
            forall|k: int|
                0 <= k < files@.len() ==> #[trigger] found_texts@[k]@ == text_of(files@[k]),
            out@.map_values(|i: usize| i as int) == own_files(files@.take(i as int), session_id@),
            forall|k: int| 0 <= k < out@.len() ==> #[trigger] out@[k] < files@.len(),
        decreases files.len() - i,
    {
        proof {
            assert(found_texts@[i as int]@ == text_of(files@[i as int]));
            assert(files@.take(i + 1).drop_last() == files@.take(i as int));
            assert(files@.take(i + 1).last() == files@[i as int]);
        }
        if history_belongs_to_session(found_texts[i].as_str(), session_id) {
            let ghost was = out@;
            out.push(i);
            assert(out@.map_values(|i: usize| i as int) == was.map_values(|i: usize| i as int).push(
                i as int,
            ));
        }
        i += 1;
    }
    assert(files@.take(i as int) == files@);
    out
}

fn context_from(source_repo: &str, file: &HistoryFile, text: &str, session_id: &str) -> (r: Result<
    ResolvedCodexContext,
    String,
>)
    requires
        text@ == text_of(*file),
    ensures
        match r {
            Ok(context) => context_in(source_repo@, *file, session_id@) == Ok::<
                CodexView,
                Seq<char>,
            >(context.metadata@) && context.bytes@ == file.bytes@,
            Err(error) => context_in(source_repo@, *file, session_id@) == Err::<
                CodexView,
                Seq<char>,
            >(error@),
        },
{
    let input_id = match latest_user_input_id(text, session_id) {
        Some(id) => id,
        None => {
            return Err(
                glue5(
                    "Codex history ",
                    file.path.as_str(),
                    " has no User input marker for current session `",
                    session_id,
                    "`",
                ),
            );
        },
    };
    let history_path = match path_below(source_repo, file.path.as_str()) {
        Some(path) => path,
        None => {
            let head = glue3("Codex history ", file.path.as_str(), " is outside source repository ");
            return Err(glue2(head.as_str(), source_repo));
        },
    };
    let sha256 = string_of(fingerprint(file.bytes.as_slice()).as_slice());
    let bytes = crate::bytes::bytes_between(file.bytes.as_slice(), 0, file.bytes.len());
    assert(bytes@ == file.bytes@);
    Ok(
        ResolvedCodexContext {
            metadata: CodexContext {
                history_path,
                session_id: session_id.to_owned(),
                input_id,
                snapshot_path: SNAPSHOT_PATH.to_owned(),
                sha256,
            },
            bytes,
        },
    )
}

/// Finds the conversation that the current session belongs to among the files of a directory.
pub fn resolve(
    source_repo: &str,
    history_dir: &str,
    session_id: &str,
    files: &Vec<HistoryFile>,
) -> (r: Result<ResolvedCodexContext, String>)
    ensures
        match r {
            Ok(context) => {
                &&& context_of(source_repo@, history_dir@, session_id@, files@) == Ok::<
                    CodexView,
                    Seq<char>,
                >(context.metadata@)
                &&& context.metadata.sha256@ == fingerprint_of(context.bytes@)
            },
            Err(error) => context_of(source_repo@, history_dir@, session_id@, files@) == Err::<
                CodexView,
                Seq<char>,
            >(error@),
        },
{
    if !inside(source_repo, history_dir) {
        return Err(
            glue2("Codex history directory must remain inside source repository ", source_repo),
        );
    }
    let found_texts = match read_histories(files, "Codex") {
        Ok(found) => found,
        Err(error) => {
            return Err(error);
        },
    };
    let found = find_own(files, &found_texts, session_id);
    let ghost places = found@.map_values(|i: usize| i as int);
    assert(places.len() == found@.len());
    if found.len() == 0 {
        return Err(
            glue5(
                "no Codex history file in ",
                history_dir,
                " belongs to current session `",
                session_id,
                "`; ensure the UserPromptSubmit hook was active before starting this session",
            ),
        );
    }
    if found.len() > 1 {
        return Err(
            glue5(
                "multiple Codex history files in ",
                history_dir,
                " belong to current session `",
                session_id,
                "`",
            ),
        );
    }
    let file = found[0];
    assert(places[0] == file as int);
    context_from(source_repo, &files[file], found_texts[file].as_str(), session_id)
}

pub open spec fn pick_session() -> spec_fn(HistoryFile) -> Option<()> {
    |file: HistoryFile|
        if header_session(text_of(file)) is Some {
            Some(())
        } else {
            None
        }
}

/// Counts the files that name their session.
pub fn valid_history_files(files: &Vec<HistoryFile>) -> (r: Result<usize, String>)
    ensures
        match r {
            Ok(count) => first_picked(files@, pick_broken("Codex"@)) is None && count == picked(
                files@,
                pick_session(),
            ).len(),
            Err(error) => first_picked(files@, pick_broken("Codex"@)) == Some(error@),
        },
{
    let found_texts = match read_histories(files, "Codex") {
        Ok(found) => found,
        Err(error) => {
            return Err(error);
        },
    };
    let mut count: usize = 0;
    let mut i: usize = 0;
    assert(files@.take(0) == Seq::<HistoryFile>::empty());
    while i < files.len()
        invariant
            i <= files@.len(),
            count <= i,
            found_texts@.len() == files@.len(),
            forall|k: int|
                0 <= k < files@.len() ==> #[trigger] found_texts@[k]@ == text_of(files@[k]),
            count == picked(files@.take(i as int), pick_session()).len(),
        decreases files.len() - i,
    {
        proof {
            assert(found_texts@[i as int]@ == text_of(files@[i as int]));
            assert(files@.take(i + 1).drop_last() == files@.take(i as int));
            assert(files@.take(i + 1).last() == files@[i as int]);
        }
        if session_from_header(found_texts[i].as_str()).is_some() {
            count += 1;
        }
        i += 1;
    }
    assert(files@.take(i as int) == files@);
    Ok(count)
}

} // verus!
