//! Numbers as text: how they are read and written is a parameter, like their arithmetic.
use crate::number::Number;
use vstd::prelude::*;

verus! {

/// `read` may be asked for every text, and answers as `f` does.
pub open spec fn reads<R: Fn(&str) -> Option<Number>>(
    read: R,
    f: spec_fn(Seq<char>) -> Option<Number>,
) -> bool {
    &&& forall|s: &str| #[trigger] read.requires((s,))
    &&& forall|s: &str, r: Option<Number>| #[trigger] read.ensures((s,), r) ==> r == f(s@)
}

/// The answers of `read` depend on the text alone.
pub open spec fn is_reader<R: Fn(&str) -> Option<Number>>(read: R) -> bool {
    exists|f: spec_fn(Seq<char>) -> Option<Number>| reads(read, f)
}

/// The number that `read` finds in a text.
pub open spec fn reading<R: Fn(&str) -> Option<Number>>(read: R) -> spec_fn(Seq<char>) -> Option<
    Number,
> {
    choose|f: spec_fn(Seq<char>) -> Option<Number>| reads(read, f)
}

/// Reads the number that a text writes, if it writes one.
pub fn read_number<R: Fn(&str) -> Option<Number>>(read: &R, s: &[char]) -> (r: Option<Number>)
    requires
        is_reader(*read),
    ensures
        r == reading(*read)(s@),
{
    let text = crate::text::string_of(s);
    read(text.as_str())
}

/// `show` may be asked to write every number, and writes as `g` does.
pub open spec fn writes<S: Fn(Number, u32) -> String>(
    show: S,
    g: spec_fn(Number, u32) -> Seq<char>,
) -> bool {
    &&& forall|n: Number, d: u32| #[trigger] show.requires((n, d))
    &&& forall|n: Number, d: u32, r: String| #[trigger]
        show.ensures((n, d), r) ==> r@ == g(n, d)
}

/// The text that `show` gives depends on the number and the decimal places alone.
pub open spec fn is_writer<S: Fn(Number, u32) -> String>(show: S) -> bool {
    exists|g: spec_fn(Number, u32) -> Seq<char>| writes(show, g)
}

/// What `show` writes.
pub open spec fn written<S: Fn(Number, u32) -> String>(show: S) -> spec_fn(Number, u32) -> Seq<
    char,
> {
    choose|g: spec_fn(Number, u32) -> Seq<char>| writes(show, g)
}

/// Writes a number with a number of decimal places.
pub fn write_number<S: Fn(Number, u32) -> String>(show: &S, n: Number, decimals: u32) -> (r: String)
    requires
        is_writer(*show),
    ensures
        r@ == written(*show)(n, decimals),
{
    show(n, decimals)
}

} // verus!
