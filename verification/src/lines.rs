//! Lines of text as the bytes that a writer receives.

use vstd::prelude::*;
use vstd::utf8::encode_utf8;

verus! {

/// The byte that ends a line.
pub const LINE_END: u8 = 0x0a;

/// One line on the wire: its text in UTF-8, then the line end.
pub open spec fn line_bytes(line: Seq<char>) -> Seq<u8> {
    encode_utf8(line).push(LINE_END)
}

/// The lines on the wire, one after the other, each with its line end.
pub open spec fn lines_bytes(lines: Seq<Seq<char>>) -> Seq<u8>
    decreases lines.len(),
{
    if lines.len() == 0 {
        Seq::empty()
    } else {
        lines_bytes(lines.drop_last()) + line_bytes(lines.last())
    }
}

/// Appends `line` and a line end to `buf`.
pub fn write_line(buf: &mut Vec<u8>, line: &str)
    ensures
        final(buf)@ == old(buf)@ + line_bytes(line@),
{
    buf.extend_from_slice(line.as_bytes());
    buf.push(LINE_END);
    assert(buf@ =~= old(buf)@ + line_bytes(line@));
}

/// Appends each of `lines` to `buf`, in order, each followed by a line end.
pub fn write_lines(buf: &mut Vec<u8>, lines: &[&str])
    ensures
        final(buf)@ == old(buf)@ + lines_bytes(lines.deep_view()),
{
    let n: usize = lines.len();
    let mut i: usize = 0;
    while i < n
        invariant
            n == lines@.len(),
            i <= n,
            buf@ == old(buf)@ + lines_bytes(lines.deep_view().take(i as int)),
        decreases n - i,
    {
        write_line(buf, lines[i]);
        proof {
            let upto = lines.deep_view().take(i + 1);
            assert(upto.drop_last() =~= lines.deep_view().take(i as int));
            assert(upto.last() == lines[i as int]@);
            assert(buf@ =~= old(buf)@ + lines_bytes(upto));
        }
        i += 1;
    }
    assert(lines.deep_view().take(n as int) =~= lines.deep_view());
}

} // verus!
