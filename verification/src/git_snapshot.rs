//! The source that a run was made from.
use crate::bytes::{append_bytes, byte_views, split_at_byte, split_bytes};
use crate::digest::{fingerprint, fingerprint_of};
use crate::join::sort_by_keys;
use crate::model::{FileDigest, SourceSnapshot};
use crate::order::{models, stable_sorted, Key};
use crate::paths::{components, components_of, is_in, lies_in};
use crate::protocol::picked;
use crate::report::text_option;
use crate::text::{
    chars_of, glue2, lossy_text, replace, replaced, same_chars, string_of, text_from_lossy, texts,
    trim, trimmed, views,
};
use vstd::prelude::*;

verus! {

/// A name that is never part of the source.
pub open spec fn is_own_name(name: Seq<char>) -> bool {
    name == ".git"@ || name == ".isuscope"@ || name == "target"@
}

/// A path that does not belong to the source: the records of this program and of Git, what is
/// built, and what the configuration leaves out.
pub open spec fn excluded(relative: Seq<char>, configured: Seq<Seq<char>>) -> bool {
    ||| exists|i: int|
        0 <= i < components(relative).len() && is_own_name(#[trigger] components(relative)[i])
    ||| exists|i: int| 0 <= i < configured.len() && lies_in(relative, #[trigger] configured[i])
}

fn has_own_name(relative: &str) -> (r: bool)
    ensures
        r == exists|i: int|
            0 <= i < components(relative@).len() && is_own_name(
                #[trigger] components(relative@)[i],
            ),
{
    let parts = components_of(relative);
    let git = chars_of(".git");
    let own = chars_of(".isuscope");
    let built = chars_of("target");
    let mut i: usize = 0;
    assert(views(parts@).len() == parts@.len());
    while i < parts.len()
        invariant
            i <= parts@.len(),
            views(parts@) == components(relative@),
            git@ == ".git"@,
            own@ == ".isuscope"@,
            built@ == "target"@,
            forall|j: int| 0 <= j < i ==> !is_own_name(#[trigger] components(relative@)[j]),
        decreases parts.len() - i,
    {
        let part = parts[i].as_slice();
        assert(components(relative@)[i as int] == part@);
        if same_chars(part, git.as_slice()) || same_chars(part, own.as_slice()) || same_chars(
            part,
            built.as_slice(),
        ) {
            return true;
        }
        i += 1;
    }
    false
}

/// Tells whether a path does not belong to the source.
pub fn is_excluded(relative: &str, configured: &Vec<String>) -> (r: bool)
    ensures
        r == excluded(relative@, texts(configured@)),
{
    if has_own_name(relative) {
        return true;
    }
    let mut i: usize = 0;
    while i < configured.len()
        invariant
            i <= configured@.len(),
            forall|j: int| 0 <= j < i ==> !lies_in(relative@, #[trigger] texts(configured@)[j]),
        decreases configured.len() - i,
    {
        assert(texts(configured@)[i as int] == configured@[i as int]@);
        if is_in(relative, configured[i].as_str()) {
            return true;
        }
        i += 1;
    }
    false
}

/// A path of a list that Git wrote, where it belongs to the source.
pub open spec fn pick_source(configured: Seq<Seq<char>>) -> spec_fn(Seq<u8>) -> Option<Seq<char>> {
    |raw: Seq<u8>|
        if raw.len() == 0 || excluded(lossy_text(raw), configured) {
            None
        } else {
            Some(lossy_text(raw))
        }
}

/// The files that Git does not know, out of a list in which a zero byte ends each.
pub fn untracked_paths(list: &[u8], configured: &Vec<String>) -> (r: Vec<String>)
    ensures
        texts(r@) == picked(split_bytes(list@, 0), pick_source(texts(configured@))),
{
    let parts = split_at_byte(list, 0);
    let ghost all = split_bytes(list@, 0);
    let ghost pick = pick_source(texts(configured@));
    let mut out: Vec<String> = Vec::new();
    let mut i: usize = 0;
    assert(all.take(0) == Seq::<Seq<u8>>::empty());
    assert(texts(out@) == picked(all.take(0), pick));
    while i < parts.len()
        invariant
            i <= parts@.len(),
            all == byte_views(parts@),
            pick == pick_source(texts(configured@)),
            texts(out@) == picked(all.take(i as int), pick),
        decreases parts.len() - i,
    {
        proof {
            assert(all[i as int] == parts@[i as int]@);
            assert(all.take(i + 1).drop_last() == all.take(i as int));
            assert(all.take(i + 1).last() == all[i as int]);
        }
        if parts[i].len() > 0 {
            let path = text_from_lossy(parts[i].as_slice());
            if !is_excluded(path.as_str(), configured) {
                let ghost was = out@;
                let ghost name = path@;
                out.push(path);
                assert(texts(out@) == texts(was).push(name));
            }
        }
        i += 1;
    }
    assert(all.take(i as int) == all);
    out
}

pub open spec fn path_of() -> spec_fn(FileDigest) -> Seq<char> {
    |f: FileDigest| f.path@
}

/// Some bytes one after the other.
pub open spec fn file_bytes(files: Seq<FileDigest>) -> Seq<u8>
    decreases files.len(),
{
    if files.len() == 0 {
        Seq::empty()
    } else {
        file_bytes(files.drop_last()) + vstd::utf8::encode_utf8(files.last().path@)
            + vstd::utf8::encode_utf8(files.last().sha256@)
    }
}

/// What tells one state of the source from another: the commit, what changed since, and the files
/// that Git does not know.
pub open spec fn state_of(
    commit: Option<Seq<char>>,
    patch: Seq<u8>,
    files: Seq<FileDigest>,
) -> Seq<char> {
    fingerprint_of(
        (match commit {
            Some(hash) => vstd::utf8::encode_utf8(hash),
            None => Seq::empty(),
        }) + patch + file_bytes(files),
    )
}

fn state_digest(commit: &Option<String>, patch: &[u8], files: &Vec<FileDigest>) -> (r: String)
    ensures
        r@ == state_of(text_option(*commit), patch@, files@),
{
    let mut bytes: Vec<u8> = Vec::new();
    match commit {
        Some(hash) => {
            append_bytes(&mut bytes, hash.as_str().as_bytes());
            assert(bytes@ == vstd::utf8::encode_utf8(hash@));
        },
        None => {},
    }
    append_bytes(&mut bytes, patch);
    let ghost start = bytes@;
    let mut i: usize = 0;
    assert(files@.take(0) == Seq::<FileDigest>::empty());
    assert(start + file_bytes(files@.take(0)) == start);
    while i < files.len()
        invariant
            i <= files@.len(),
            bytes@ == start + file_bytes(files@.take(i as int)),
        decreases files.len() - i,
    {
        let ghost head = file_bytes(files@.take(i as int));
        let ghost a = vstd::utf8::encode_utf8(files@[i as int].path@);
        let ghost b = vstd::utf8::encode_utf8(files@[i as int].sha256@);
        append_bytes(&mut bytes, files[i].path.as_str().as_bytes());
        append_bytes(&mut bytes, files[i].sha256.as_str().as_bytes());
        proof {
            assert(files@.take(i + 1).drop_last() == files@.take(i as int));
            assert(files@.take(i + 1).last() == files@[i as int]);
            assert(start + head + a + b == start + (head + a + b));
        }
        i += 1;
    }
    assert(files@.take(i as int) == files@);
    string_of(fingerprint(bytes.as_slice()).as_slice())
}

fn sorted_files(files: Vec<FileDigest>) -> (r: Vec<FileDigest>)
    ensures
        r@ == stable_sorted::<FileDigest, String>(files@, path_of()),
{
    let mut keys: Vec<String> = Vec::new();
    let ghost all = files@.map_values(path_of());
    let mut i: usize = 0;
    assert(models(keys@) == all.take(0));
    while i < files.len()
        invariant
            i <= files@.len(),
            all == files@.map_values(path_of()),
            models(keys@) == all.take(i as int),
        decreases files.len() - i,
    {
        let ghost was = keys@;
        let k = files[i].path.clone();
        let ghost model = k.model();
        keys.push(k);
        assert(models(keys@) == models(was).push(model));
        assert(all[i as int] == model);
        assert(all.take(i + 1) == all.take(i as int).push(all[i as int]));
        i += 1;
    }
    assert(all.take(i as int) == all);
    sort_by_keys(files, &keys, Ghost(path_of()))
}

/// What Git says of a repository.
#[derive(Debug)]
pub struct GitState {
    pub root: String,
    /// The current commit, as Git prints it, where there is one.
    pub commit: Option<String>,
    pub branch: Option<String>,
    /// What Git lists as changed.
    pub status: Vec<u8>,
    pub patch: Vec<u8>,
    pub untracked: Vec<FileDigest>,
}

pub open spec fn trimmed_option(text: Option<Seq<char>>) -> Option<Seq<char>> {
    match text {
        Some(s) => Some(trim(s)),
        None => None,
    }
}

pub open spec fn named_branch(text: Option<Seq<char>>) -> Option<Seq<char>> {
    match text {
        Some(s) => if trim(s).len() == 0 {
            None
        } else {
            Some(trim(s))
        },
        None => None,
    }
}

/// The source of a run in a Git repository.
pub open spec fn git_source(state: GitState, r: SourceSnapshot) -> bool {
    let commit = trimmed_option(text_option(state.commit));
    &&& r.repository@ == state.root@
    &&& r.git_available
    &&& text_option(r.commit_hash) == commit
    &&& text_option(r.branch) == named_branch(text_option(state.branch))
    &&& r.dirty == (state.status@.len() > 0)
    &&& r.untracked@ == stable_sorted::<FileDigest, String>(state.untracked@, path_of())
    &&& r.state_sha256@ == state_of(commit, state.patch@, r.untracked@)
    &&& r.error is None
}

/// Describes the source of a run in a Git repository.
pub fn capture_git(state: GitState) -> (r: SourceSnapshot)
    ensures
        git_source(state, r),
{
    let commit_hash = match &state.commit {
        Some(text) => Some(string_of(trimmed(chars_of(text.as_str()).as_slice()).as_slice())),
        None => None,
    };
    let branch = match &state.branch {
        Some(text) => {
            let short = trimmed(chars_of(text.as_str()).as_slice());
            if short.len() == 0 {
                None
            } else {
                Some(string_of(short.as_slice()))
            }
        },
        None => None,
    };
    let untracked = sorted_files(state.untracked);
    let state_sha256 = state_digest(&commit_hash, state.patch.as_slice(), &untracked);
    SourceSnapshot {
        repository: state.root,
        git_available: true,
        commit_hash,
        branch,
        dirty: state.status.len() > 0,
        state_sha256,
        untracked,
        error: None,
    }
}

/// Describes the source of a run without Git: all its files, which count as changed.
pub fn capture_without_git(repository: String, files: Vec<FileDigest>, git_error: String) -> (r:
    SourceSnapshot)
    ensures
        r.repository == repository,
        !r.git_available,
        r.commit_hash is None,
        r.branch is None,
        r.dirty,
        r.untracked@ == stable_sorted::<FileDigest, String>(files@, path_of()),
        r.state_sha256@ == state_of(None, Seq::empty(), r.untracked@),
        r.error == Some(git_error),
{
    let untracked = sorted_files(files);
    let none: Vec<u8> = Vec::new();
    assert(none@ == Seq::<u8>::empty());
    let state_sha256 = state_digest(&None, none.as_slice(), &untracked);
    SourceSnapshot {
        repository,
        git_available: false,
        commit_hash: None,
        branch: None,
        dirty: true,
        state_sha256,
        untracked,
        error: Some(git_error),
    }
}

/// The source of a run of which nothing could be learned.
pub fn unknown_source(repository: String, error: String) -> (r: SourceSnapshot)
    ensures
        r.repository == repository,
        !r.git_available,
        r.commit_hash is None,
        r.branch is None,
        r.dirty,
        r.state_sha256@.len() == 0,
        r.untracked@.len() == 0,
        r.error == Some(error),
{
    SourceSnapshot {
        repository,
        git_available: false,
        commit_hash: None,
        branch: None,
        dirty: true,
        state_sha256: String::new(),
        untracked: Vec::new(),
        error: Some(error),
    }
}

/// The arguments that keep a command of Git to the source.
pub open spec fn scope_of(configured: Seq<Seq<char>>) -> Seq<Seq<char>> {
    seq!["--"@, "."@] + configured.map_values(
        |path: Seq<char>| ":(exclude)"@ + replace(path, "\\"@, "/"@),
    )
}

pub fn scope_arguments(configured: &Vec<String>) -> (r: Vec<String>)
    ensures
        texts(r@) == scope_of(texts(configured@)),
{
    let ghost each = |path: Seq<char>| ":(exclude)"@ + replace(path, "\\"@, "/"@);
    let ghost all = texts(configured@).map_values(each);
    let ghost first = seq!["--"@, "."@];
    let mut out: Vec<String> = Vec::new();
    assert(texts(out@) == Seq::<Seq<char>>::empty());
    crate::config::push_text(&mut out, "--");
    crate::config::push_text(&mut out, ".");
    assert(texts(out@) == first);
    let mut i: usize = 0;
    assert(first + all.take(0) == first);
    while i < configured.len()
        invariant
            i <= configured@.len(),
            each == (|path: Seq<char>| ":(exclude)"@ + replace(path, "\\"@, "/"@)),
            all == texts(configured@).map_values(each),
            texts(out@) == first + all.take(i as int),
        decreases configured.len() - i,
    {
        let path = replaced(
            chars_of(configured[i].as_str()).as_slice(),
            chars_of("\\").as_slice(),
            chars_of("/").as_slice(),
        );
        let argument = glue2(":(exclude)", string_of(path.as_slice()).as_str());
        assert(all[i as int] == argument@);
        crate::config::push_text(&mut out, argument.as_str());
        assert(first + all.take(i + 1) == (first + all.take(i as int)).push(all[i as int]));
        i += 1;
    }
    assert(all.take(i as int) == all);
    out
}

} // verus!
