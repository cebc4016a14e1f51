//! Sequences of bytes.
use vstd::prelude::*;

verus! {

/// The mathematical values of a list of byte strings.
pub open spec fn byte_views(parts: Seq<Vec<u8>>) -> Seq<Seq<u8>> {
    parts.map_values(|p: Vec<u8>| p@)
}

/// The pieces of `s` between the separators `sep`: one more than there are separators.
pub open spec fn split_bytes(s: Seq<u8>, sep: u8) -> Seq<Seq<u8>>
    decreases s.len(),
{
    if s.len() == 0 {
        seq![Seq::empty()]
    } else {
        let rest = split_bytes(s.drop_last(), sep);
        if s.last() == sep {
            rest.push(Seq::empty())
        } else {
            rest.update(rest.len() - 1, rest.last().push(s.last()))
        }
    }
}

/// The lines of `s`: what stands before each line feed, and what follows the last one where
/// something does.
pub open spec fn byte_lines(s: Seq<u8>) -> Seq<Seq<u8>> {
    let pieces = split_bytes(s, 10);
    if pieces.last().len() == 0 {
        pieces.drop_last()
    } else {
        pieces
    }
}

pub fn split_at_byte(s: &[u8], sep: u8) -> (out: Vec<Vec<u8>>)
    ensures
        byte_views(out@) == split_bytes(s@, sep),
        out@.len() > 0,
{
    let mut done: Vec<Vec<u8>> = Vec::new();
    let mut piece: Vec<u8> = Vec::new();
    let mut i: usize = 0;
    assert(s@.take(0) == Seq::<u8>::empty());
    assert(byte_views(done@).push(piece@) == split_bytes(s@.take(0), sep));
    while i < s.len()
        invariant
            i <= s@.len(),
            byte_views(done@).push(piece@) == split_bytes(s@.take(i as int), sep),
        decreases s.len() - i,
    {
        let b: u8 = s[i];
        let ghost before = byte_views(done@).push(piece@);
        assert(s@.take(i + 1).drop_last() == s@.take(i as int));
        if b == sep {
            let ghost was = done@;
            done.push(piece);
            assert(byte_views(done@) == byte_views(was).push(piece@));
            piece = Vec::new();
        } else {
            piece.push(b);
            assert(before.update(before.len() - 1, before.last().push(b)) == byte_views(
                done@,
            ).push(piece@));
        }
        i += 1;
    }
    assert(s@.take(i as int) == s@);
    let ghost was = done@;
    done.push(piece);
    assert(byte_views(done@) == byte_views(was).push(piece@));
    done
}

pub fn byte_lines_of(s: &[u8]) -> (out: Vec<Vec<u8>>)
    ensures
        byte_views(out@) == byte_lines(s@),
{
    let mut pieces = split_at_byte(s, 10);
    let ghost all = split_bytes(s@, 10);
    let n: usize = pieces.len();
    assert(pieces@[n - 1]@ == all.last());
    if pieces[n - 1].len() == 0 {
        let _ = pieces.pop();
        assert(byte_views(pieces@) == all.drop_last());
    }
    pieces
}

/// `p` stands in `s` at `at`.
pub open spec fn bytes_at(s: Seq<u8>, p: Seq<u8>, at: int) -> bool {
    0 <= at && at + p.len() <= s.len() && s.subrange(at, at + p.len()) == p
}

/// Where `p` first stands in `s`, from `from` on.
pub open spec fn find_bytes_from(s: Seq<u8>, p: Seq<u8>, from: int) -> Option<int>
    decreases s.len() - from + 1,
{
    if from < 0 || from + p.len() > s.len() {
        None
    } else if bytes_at(s, p, from) {
        Some(from)
    } else {
        find_bytes_from(s, p, from + 1)
    }
}

/// Where `p` first stands in `s`.
pub open spec fn find_bytes(s: Seq<u8>, p: Seq<u8>) -> Option<int> {
    find_bytes_from(s, p, 0)
}

fn stands_at(s: &[u8], p: &[u8], at: usize) -> (r: bool)
    requires
        at + p@.len() <= s@.len(),
    ensures
        r == bytes_at(s@, p@, at as int),
{
    let length = s.len();
    let mut i: usize = 0;
    while i < p.len()
        invariant
            i <= p@.len(),
            length == s@.len(),
            at + p@.len() <= length,
            forall|j: int| 0 <= j < i ==> s@[at + j] == p@[j],
        decreases p.len() - i,
    {
        if s[at + i] != p[i] {
            assert(s@.subrange(at as int, at + p@.len())[i as int] != p@[i as int]);
            return false;
        }
        i += 1;
    }
    assert(s@.subrange(at as int, at + p@.len()) == p@);
    true
}

/// What stands before `at` holds no earlier place.
pub proof fn find_bytes_bounds(s: Seq<u8>, p: Seq<u8>, from: int)
    requires
        0 <= from,
    ensures
        find_bytes_from(s, p, from) matches Some(at) ==> from <= at && bytes_at(s, p, at),
    decreases s.len() - from + 1,
{
    if from + p.len() <= s.len() && !bytes_at(s, p, from) {
        find_bytes_bounds(s, p, from + 1);
    }
}

/// What is found depends on the bytes up to its end alone.
pub proof fn finds_stay(s: Seq<u8>, t: Seq<u8>, p: Seq<u8>, from: int)
    requires
        0 <= from,
        find_bytes_from(s, p, from) is Some,
        find_bytes_from(s, p, from)->0 + p.len() <= t.len(),
        forall|i: int|
            0 <= i < find_bytes_from(s, p, from)->0 + p.len() ==> #[trigger] s[i] == t[i],
    ensures
        find_bytes_from(t, p, from) == find_bytes_from(s, p, from),
    decreases s.len() - from + 1,
{
    find_bytes_bounds(s, p, from);
    let at = find_bytes_from(s, p, from)->0;
    assert(s.subrange(from, from + p.len()) == t.subrange(from, from + p.len()));
    if at > from {
        finds_stay(s, t, p, from + 1);
    }
}

/// Finds where `p` first stands in `s`.
pub fn find_in_bytes(s: &[u8], p: &[u8]) -> (r: Option<usize>)
    ensures
        match r {
            Some(at) => find_bytes(s@, p@) == Some(at as int) && at + p@.len() <= s@.len(),
            None => find_bytes(s@, p@) is None,
        },
{
    if p.len() > s.len() {
        return None;
    }
    let last = s.len() - p.len();
    let mut at: usize = 0;
    while at <= last
        invariant
            last + p@.len() == s@.len(),
            at <= last + 1,
            find_bytes(s@, p@) == find_bytes_from(s@, p@, at as int),
        decreases last + 1 - at,
    {
        if stands_at(s, p, at) {
            return Some(at);
        }
        if at == last {
            assert(find_bytes_from(s@, p@, at + 1) is None);
            return None;
        }
        at += 1;
    }
    None
}

/// The bytes of `s` from `from` up to but without `to`.
pub fn bytes_between(s: &[u8], from: usize, to: usize) -> (out: Vec<u8>)
    requires
        from <= to <= s@.len(),
    ensures
        out@ == s@.subrange(from as int, to as int),
{
    let mut out: Vec<u8> = Vec::new();
    let mut i: usize = from;
    while i < to
        invariant
            from <= i <= to <= s@.len(),
            out@ == s@.subrange(from as int, i as int),
        decreases to - i,
    {
        out.push(s[i]);
        assert(s@.subrange(from as int, i + 1) == s@.subrange(from as int, i as int).push(
            s@[i as int],
        ));
        i += 1;
    }
    out
}

pub fn append_bytes(out: &mut Vec<u8>, more: &[u8])
    ensures
        final(out)@ == old(out)@ + more@,
{
    let ghost was = out@;
    let mut i: usize = 0;
    assert(was + more@.take(0) == was);
    while i < more.len()
        invariant
            i <= more@.len(),
            out@ == was + more@.take(i as int),
        decreases more.len() - i,
    {
        out.push(more[i]);
        assert(was + more@.take(i + 1) == (was + more@.take(i as int)).push(more@[i as int]));
        i += 1;
    }
    assert(more@.take(i as int) == more@);
}

} // verus!
