//! Paths as texts with `/` between their components.
use crate::text::{
    append, chars_of, last_at, last_halves, same_chars, slice_of, split, split_at_each, string_of,
    views,
};
use vstd::prelude::*;

verus! {

/// A path that starts at the root.
pub open spec fn is_absolute(path: Seq<char>) -> bool {
    path.len() > 0 && path[0] == '/'
}

/// `path` as seen from `base`: `path` itself where it is absolute, and else `path` below `base`.
pub open spec fn join_path(base: Seq<char>, path: Seq<char>) -> Seq<char> {
    if is_absolute(path) || base.len() == 0 {
        path
    } else if base.last() == '/' {
        base + path
    } else {
        base.push('/') + path
    }
}

pub fn absolute(path: &str) -> (r: bool)
    ensures
        r == is_absolute(path@),
{
    let chars = chars_of(path);
    chars.len() > 0 && chars[0] == '/'
}

pub fn joined_path(base: &str, path: &str) -> (r: String)
    ensures
        r@ == join_path(base@, path@),
{
    let mut out = chars_of(base);
    let rest = chars_of(path);
    if absolute(path) || out.len() == 0 {
        return path.to_string();
    }
    if out[out.len() - 1] != '/' {
        out.push('/');
    }
    append(&mut out, rest.as_slice());
    string_of(out.as_slice())
}

/// An absolute path does not depend on where it is seen from.
pub proof fn absolute_paths_stand_alone(a: Seq<char>, b: Seq<char>, path: Seq<char>)
    requires
        is_absolute(path),
    ensures
        join_path(a, path) == path,
        join_path(a, path) == join_path(b, path),
{
}

/// `path` without the slashes at its end.
pub open spec fn without_slashes(path: Seq<char>) -> Seq<char>
    decreases path.len(),
{
    if path.len() > 0 && path.last() == '/' {
        without_slashes(path.drop_last())
    } else {
        path
    }
}

/// The directory that holds a path: nothing for the root and for the empty path, and the empty path
/// for a name alone. The path has no component `.`.
pub open spec fn parent(path: Seq<char>) -> Option<Seq<char>> {
    let bare = without_slashes(path);
    if bare.len() == 0 {
        None
    } else {
        match last_at(bare, '/') {
            None => Some(Seq::empty()),
            Some(at) => {
                let above = without_slashes(bare.take(at));
                Some(
                    if above.len() == 0 {
                        "/"@
                    } else {
                        above
                    },
                )
            },
        }
    }
}

fn strip_slashes(path: &[char]) -> (r: Vec<char>)
    ensures
        r@ == without_slashes(path@),
{
    let mut n: usize = path.len();
    assert(path@.take(n as int) == path@);
    while n > 0 && path[n - 1] == '/'
        invariant
            n <= path@.len(),
            without_slashes(path@) == without_slashes(path@.take(n as int)),
        decreases n,
    {
        assert(path@.take(n as int).drop_last() == path@.take(n - 1));
        n -= 1;
    }
    let r = slice_of(path, 0, n);
    assert(r@ == path@.take(n as int));
    r
}

pub fn parent_path(path: &str) -> (r: Option<String>)
    ensures
        crate::report::text_option(r) == parent(path@),
{
    let bare = strip_slashes(chars_of(path).as_slice());
    if bare.len() == 0 {
        return None;
    }
    match last_halves(bare.as_slice(), '/') {
        None => Some(String::new()),
        Some((before, _)) => {
            let above = strip_slashes(before.as_slice());
            if above.len() == 0 {
                Some("/".to_owned())
            } else {
                Some(string_of(above.as_slice()))
            }
        },
    }
}

/// A parent is shorter than its path, or the root above a name.
pub proof fn parents_end(path: Seq<char>)
    ensures
        parent(path) matches Some(above) ==> above.len() < path.len(),
{
    stripping_shortens(path);
    let bare = without_slashes(path);
    if bare.len() > 0 {
        match last_at(bare, '/') {
            None => {},
            Some(at) => {
                last_at_inside(bare, '/');
                stripping_shortens(bare.take(at));
                reveal_strlit("/");
                stripped_ends_bare(path);
                if at == 0 {
                    assert(bare.last() != '/');
                }
            },
        }
    }
}

proof fn stripping_shortens(path: Seq<char>)
    ensures
        without_slashes(path).len() <= path.len(),
    decreases path.len(),
{
    if path.len() > 0 && path.last() == '/' {
        stripping_shortens(path.drop_last());
    }
}

proof fn stripped_ends_bare(path: Seq<char>)
    ensures
        without_slashes(path).len() > 0 ==> without_slashes(path).last() != '/',
    decreases path.len(),
{
    if path.len() > 0 && path.last() == '/' {
        stripped_ends_bare(path.drop_last());
    }
}

proof fn last_at_inside(s: Seq<char>, c: char)
    ensures
        last_at(s, c) matches Some(at) ==> 0 <= at < s.len() && s[at] == c,
    decreases s.len(),
{
    if s.len() > 0 && s.last() != c {
        last_at_inside(s.drop_last(), c);
    }
}

/// The path itself and every directory above it, from the innermost to the root.
pub open spec fn ancestors(path: Seq<char>) -> Seq<Seq<char>>
    decreases path.len(),
{
    match parent(path) {
        Some(above) => {
            proof {
                parents_end(path);
            }
            seq![path] + ancestors(above)
        },
        None => seq![path],
    }
}

/// A path that stays below the directory it is seen from: not empty, not absolute, and without a
/// component `..` or a leading `.`.
pub open spec fn is_inner(path: Seq<char>) -> bool {
    let pieces = split(path, '/');
    &&& path.len() > 0
    &&& !is_absolute(path)
    &&& pieces[0] != "."@
    &&& forall|i: int| 0 <= i < pieces.len() ==> #[trigger] pieces[i] != ".."@
}

pub fn inner(path: &str) -> (r: bool)
    ensures
        r == is_inner(path@),
{
    let chars = chars_of(path);
    if chars.len() == 0 || absolute(path) {
        return false;
    }
    let pieces = split_at_each(chars.as_slice(), '/');
    let ghost all = split(path@, '/');
    let here = chars_of(".");
    let up = chars_of("..");
    assert(all[0] == pieces@[0]@);
    if same_chars(pieces[0].as_slice(), here.as_slice()) {
        return false;
    }
    let mut i: usize = 0;
    while i < pieces.len()
        invariant
            i <= pieces@.len(),
            up@ == ".."@,
            all == views(pieces@),
            all == split(path@, '/'),
            forall|j: int| 0 <= j < i ==> #[trigger] all[j] != ".."@,
        decreases pieces.len() - i,
    {
        assert(all[i as int] == pieces@[i as int]@);
        if same_chars(pieces[i].as_slice(), up.as_slice()) {
            return false;
        }
        i += 1;
    }
    true
}

/// A path as seen from a directory above it.
pub open spec fn below(base: Seq<char>, path: Seq<char>) -> Option<Seq<char>> {
    crate::text::strip_prefix(
        path,
        if crate::text::ends(base, "/"@) {
            base
        } else {
            base + "/"@
        },
    )
}

pub fn path_below(base: &str, path: &str) -> (r: Option<String>)
    ensures
        crate::report::text_option(r) == below(base@, path@),
{
    let chars = chars_of(base);
    let mut head = chars_of(base);
    if !crate::text::ends_with(chars.as_slice(), chars_of("/").as_slice()) {
        crate::text::append_str(&mut head, "/");
    }
    match crate::text::stripped_prefix(chars_of(path).as_slice(), head.as_slice()) {
        Some(rest) => Some(string_of(rest.as_slice())),
        None => None,
    }
}

pub open spec fn is_named() -> spec_fn(Seq<char>) -> bool {
    |piece: Seq<char>| piece.len() > 0 && piece != "."@
}

/// The components of a path: the root, or a dot at its start, and then the names in it.
pub open spec fn components(path: Seq<char>) -> Seq<Seq<char>> {
    let pieces = split(path, '/');
    (if is_absolute(path) {
        seq!["/"@]
    } else if pieces[0] == "."@ {
        seq!["."@]
    } else {
        Seq::empty()
    }) + pieces.filter(is_named())
}

pub fn components_of(path: &str) -> (out: Vec<Vec<char>>)
    ensures
        views(out@) == components(path@),
{
    let chars = chars_of(path);
    let pieces = split_at_each(chars.as_slice(), '/');
    let dot = chars_of(".");
    let ghost all = split(path@, '/');
    let mut out: Vec<Vec<char>> = Vec::new();
    assert(views(out@) == Seq::<Seq<char>>::empty());
    assert(views(pieces@)[0] == pieces@[0]@);
    if absolute(path) {
        let root = chars_of("/");
        out.push(root);
        assert(views(out@) == seq!["/"@]);
    } else if same_chars(pieces[0].as_slice(), dot.as_slice()) {
        let here = chars_of(".");
        out.push(here);
        assert(views(out@) == seq!["."@]);
    }
    let ghost first = views(out@);
    let mut i: usize = 0;
    proof {
        reveal(Seq::filter);
        assert(all.take(0) == Seq::<Seq<char>>::empty());
        assert(first + all.take(0).filter(is_named()) == first);
    }
    while i < pieces.len()
        invariant
            i <= pieces@.len(),
            all == views(pieces@),
            dot@ == "."@,
            views(out@) == first + all.take(i as int).filter(is_named()),
        decreases pieces.len() - i,
    {
        let ghost head = all.take(i as int).filter(is_named());
        proof {
            reveal(Seq::filter);
            assert(all[i as int] == pieces@[i as int]@);
            assert(all.take(i + 1).drop_last() == all.take(i as int));
            assert(all.take(i + 1).last() == all[i as int]);
        }
        if pieces[i].len() > 0 && !same_chars(pieces[i].as_slice(), dot.as_slice()) {
            let ghost was = out@;
            let name = slice_of(pieces[i].as_slice(), 0, pieces[i].len());
            assert(name@ == all[i as int]);
            out.push(name);
            assert(views(out@) == views(was).push(all[i as int]));
            assert(first + head.push(all[i as int]) == (first + head).push(all[i as int]));
        }
        i += 1;
    }
    assert(all.take(i as int) == all);
    out
}

/// A path that lies in a directory, or is it.
pub open spec fn lies_in(path: Seq<char>, dir: Seq<char>) -> bool {
    let a = components(path);
    let b = components(dir);
    b.len() <= a.len() && a.take(b.len() as int) == b
}

pub fn is_in(path: &str, dir: &str) -> (r: bool)
    ensures
        r == lies_in(path@, dir@),
{
    let a = components_of(path);
    let b = components_of(dir);
    assert(views(a@).len() == a@.len());
    assert(views(b@).len() == b@.len());
    if b.len() > a.len() {
        return false;
    }
    let mut i: usize = 0;
    while i < b.len()
        invariant
            i <= b@.len() <= a@.len(),
            forall|j: int| 0 <= j < i ==> #[trigger] a@[j]@ == b@[j]@,
            views(a@) == components(path@),
            views(b@) == components(dir@),
        decreases b.len() - i,
    {
        if !same_chars(a[i].as_slice(), b[i].as_slice()) {
            assert(views(a@).take(b@.len() as int)[i as int] == a@[i as int]@);
            assert(views(b@)[i as int] == b@[i as int]@);
            return false;
        }
        i += 1;
    }
    proof {
        let x = views(a@).take(b@.len() as int);
        let y = views(b@);
        assert forall|j: int| 0 <= j < y.len() implies x[j] == y[j] by {
            assert(a@[j]@ == b@[j]@);
        }
        assert(x == y);
    }
    true
}

} // verus!
