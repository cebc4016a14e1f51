//! The configuration and the scripts that a run was made with.
use crate::digest::{fingerprint, fingerprint_of};
use crate::labels::{no_labels, with_label, Labels, Pair};
use crate::model::ToolingSnapshot;
use crate::paths::{inner, is_inner, join_path, joined_path};
use crate::protocol::first_picked;
use crate::report::text_option;
use crate::text::{glue2, glue3, string_of, texts};
use vstd::prelude::*;

verus! {

/// A path that names a file below the directory of the configuration, by its components.
pub open spec fn is_file_path(path: Seq<char>) -> bool {
    path.len() == 0 || is_inner(path)
}

/// What is said of the first path that leaves the directory.
pub open spec fn pick_outside() -> spec_fn(Seq<char>) -> Option<Seq<char>> {
    |path: Seq<char>|
        if is_file_path(path) {
            None
        } else {
            Some("tooling include must be a relative file path: "@ + path)
        }
}

/// Checks the paths of the files that a run keeps besides the configuration.
pub fn check_paths(paths: &Vec<String>) -> (r: Result<(), String>)
    ensures
        match r {
            Ok(_) => first_picked(texts(paths@), pick_outside()) is None,
            Err(error) => first_picked(texts(paths@), pick_outside()) == Some(error@),
        },
{
    let ghost all = texts(paths@);
    let mut i: usize = 0;
    assert(all.skip(0) == all);
    while i < paths.len()
        invariant
            i <= paths@.len(),
            all == texts(paths@),
            first_picked(all, pick_outside()) == first_picked(all.skip(i as int), pick_outside()),
        decreases paths.len() - i,
    {
        assert(all.skip(i as int)[0] == paths@[i as int]@);
        assert(all.skip(i as int).skip(1) == all.skip(i + 1));
        let path = paths[i].as_str();
        if !path.is_empty() && !inner(path) {
            return Err(glue2("tooling include must be a relative file path: ", path));
        }
        i += 1;
    }
    Ok(())
}

/// Where a run keeps such a file.
pub fn extra_path(destination: &str, relative: &str) -> (r: String)
    ensures
        r@ == join_path(join_path(destination@, "extra"@), relative@),
{
    let extra = joined_path(destination, "extra");
    joined_path(extra.as_str(), relative)
}

/// What a run keeps of the version of the program.
pub fn version_text(version: &str) -> (r: String)
    ensures
        r@ == "isuscope "@ + version@ + "\n"@,
{
    glue3("isuscope ", version, "\n")
}

/// A file that a run keeps, by its path.
#[derive(Debug)]
pub struct KeptFile {
    pub path: String,
    pub bytes: Vec<u8>,
}

/// The digests of the files by path.
pub open spec fn digests(files: Seq<KeptFile>) -> Seq<Pair>
    decreases files.len(),
{
    if files.len() == 0 {
        no_labels()
    } else {
        with_label(
            digests(files.drop_last()),
            files.last().path@,
            fingerprint_of(files.last().bytes@),
        )
    }
}

pub open spec fn digest_option(bytes: Option<Vec<u8>>) -> Option<Seq<char>> {
    match bytes {
        Some(b) => Some(fingerprint_of(b@)),
        None => None,
    }
}

fn digest_of(bytes: &Option<Vec<u8>>) -> (r: Option<String>)
    ensures
        text_option(r) == digest_option(*bytes),
{
    match bytes {
        Some(b) => Some(string_of(fingerprint(b.as_slice()).as_slice())),
        None => None,
    }
}

/// Describes the configuration of a run, its route rules, its setup script and the state that the
/// script left, and the other files, by their digests.
pub fn capture(
    version: &str,
    config: &[u8],
    routes: &Option<Vec<u8>>,
    setup_script: &Option<Vec<u8>>,
    setup_state: &Option<Vec<u8>>,
    extra: &Vec<KeptFile>,
) -> (r: ToolingSnapshot)
    ensures
        r.isuscope_version@ == version@,
        r.config_sha256@ == fingerprint_of(config@),
        text_option(r.routes_sha256) == digest_option(*routes),
        text_option(r.setup_script_sha256) == digest_option(*setup_script),
        text_option(r.setup_state_sha256) == digest_option(*setup_state),
        r.extra_files_sha256@ == digests(extra@),
        r.error is None,
{
    let mut files = Labels::new();
    let mut i: usize = 0;
    assert(extra@.take(0) == Seq::<KeptFile>::empty());
    while i < extra.len()
        invariant
            i <= extra@.len(),
            files@ == digests(extra@.take(i as int)),
        decreases extra.len() - i,
    {
        proof {
            assert(extra@.take(i + 1).drop_last() == extra@.take(i as int));
            assert(extra@.take(i + 1).last() == extra@[i as int]);
        }
        files.insert(
            extra[i].path.clone(),
            string_of(fingerprint(extra[i].bytes.as_slice()).as_slice()),
        );
        i += 1;
    }
    assert(extra@.take(i as int) == extra@);
    ToolingSnapshot {
        isuscope_version: version.to_owned(),
        config_sha256: string_of(fingerprint(config).as_slice()),
        routes_sha256: digest_of(routes),
        setup_script_sha256: digest_of(setup_script),
        setup_state_sha256: digest_of(setup_state),
        extra_files_sha256: files,
        error: None,
    }
}

/// What a run keeps where the files could not be kept.
pub fn without_tooling(version: &str, error: String) -> (r: ToolingSnapshot)
    ensures
        r.isuscope_version@ == version@,
        r.config_sha256@.len() == 0,
        r.routes_sha256 is None,
        r.setup_script_sha256 is None,
        r.setup_state_sha256 is None,
        r.extra_files_sha256@ == no_labels(),
        r.error == Some(error),
{
    ToolingSnapshot {
        isuscope_version: version.to_owned(),
        config_sha256: String::new(),
        routes_sha256: None,
        setup_script_sha256: None,
        setup_state_sha256: None,
        extra_files_sha256: Labels::new(),
        error: Some(error),
    }
}

} // verus!
