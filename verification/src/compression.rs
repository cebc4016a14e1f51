//! Logs compressed with Zstandard.
use crate::bytes::{append_bytes, byte_views};
use vstd::prelude::*;

verus! {

/// What some bytes hold when they are decompressed, or the message of the error.
pub uninterp spec fn decompressed(bytes: Seq<u8>) -> Result<Seq<u8>, Seq<char>>;

pub open spec fn decompression(r: Result<Vec<u8>, String>) -> Result<Seq<u8>, Seq<char>> {
    match r {
        Ok(output) => Ok(output@),
        Err(message) => Err(message@),
    }
}

/// `zstd::stream::read::Decoder` read to the end of the bytes: what it gives, or the message of its
/// error, depends on the bytes alone.
#[verifier::external_body]
pub(crate) fn decompress(bytes: &[u8]) -> (r: Result<Vec<u8>, String>)
    ensures
        decompression(r) == decompressed(bytes@),
{
    let mut out = Vec::new();
    zstd::stream::read::Decoder::new(bytes)
        .and_then(|mut decoder| std::io::Read::read_to_end(&mut decoder, &mut out))
        .map(|_| out)
        .map_err(|error| error.to_string())
}

/// The lines that come out of some bytes before their decompression ends or fails, read a buffer at
/// a time. A line that the error cuts is not among them.
pub uninterp spec fn readable_lines(bytes: Seq<u8>) -> Seq<Seq<u8>>;

/// `zstd::stream::read::Decoder` read through a `std::io::BufReader` line by line up to the first
/// error: the lines depend on the bytes alone.
#[verifier::external_body]
fn read_lines(bytes: &[u8]) -> (r: Vec<Vec<u8>>)
    ensures
        byte_views(r@) == readable_lines(bytes@),
{
    match zstd::stream::read::Decoder::new(bytes) {
        Ok(decoder) => std::io::BufRead::split(std::io::BufReader::new(decoder), b'\n')
            .map_while(Result::ok)
            .collect(),
        Err(_) => Vec::new(),
    }
}

/// Lines with their ends.
pub open spec fn ended_lines(lines: Seq<Seq<u8>>) -> Seq<u8>
    decreases lines.len(),
{
    if lines.len() == 0 {
        Seq::empty()
    } else {
        ended_lines(lines.drop_last()) + lines.last().push(10)
    }
}

/// The lines of an output that can be relied on: all of them, or those that ended before the place
/// where the log is damaged.
pub open spec fn sound_output(log: Seq<u8>) -> Seq<u8> {
    match decompressed(log) {
        Ok(output) => output,
        Err(_) => ended_lines(readable_lines(log)),
    }
}

/// Reads the lines of a compressed output, up to the last that ended before it is damaged.
pub(crate) fn decompress_lines(log: &[u8]) -> (r: Vec<u8>)
    ensures
        r@ == sound_output(log@),
{
    match decompress(log) {
        Ok(output) => output,
        Err(_) => {
            let lines = read_lines(log);
            let ghost all = byte_views(lines@);
            let mut out: Vec<u8> = Vec::new();
            let mut i: usize = 0;
            assert(all.take(0) == Seq::<Seq<u8>>::empty());
            while i < lines.len()
                invariant
                    i <= lines@.len(),
                    all == byte_views(lines@),
                    out@ == ended_lines(all.take(i as int)),
                decreases lines.len() - i,
            {
                let ghost was = out@;
                proof {
                    assert(all.take(i + 1).drop_last() == all.take(i as int));
                    assert(all.take(i + 1).last() == lines@[i as int]@);
                }
                append_bytes(&mut out, lines[i].as_slice());
                out.push(10);
                assert(out@ == was + lines@[i as int]@.push(10));
                i += 1;
            }
            assert(all.take(i as int) == all);
            out
        },
    }
}

/// What is read of a damaged log ends with a line.
pub proof fn damaged_logs_end_with_a_line(log: Seq<u8>)
    requires
        decompressed(log) is Err,
    ensures
        sound_output(log).len() == 0 || sound_output(log).last() == 10,
{
    let lines = readable_lines(log);
    if lines.len() > 0 {
        assert(sound_output(log).last() == 10);
    }
}

} // verus!
