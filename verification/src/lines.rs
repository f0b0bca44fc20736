//! The lines of a file, as bytes.
//!
//! A line ends with a line feed. A carriage return just before the line feed
//! belongs to the line ending. What follows the last line feed is a line too,
//! unless nothing follows.

use vstd::prelude::*;
use vstd::utf8::{
    is_char_boundary, is_char_boundary_iff_not_is_continuation_byte, is_continuation_byte,
    pop_first_scalar, valid_first_scalar, valid_utf8, valid_utf8_concat, valid_utf8_split,
};

verus! {

/// The line feed.
pub const LF: u8 = 10;

/// The carriage return.
pub const CR: u8 = 13;

/// The number of bytes before the first line feed, or the number of all
/// bytes where there is no line feed.
pub open spec fn line_length(bytes: Seq<u8>) -> nat
    decreases bytes.len(),
{
    if bytes.len() == 0 || bytes[0] == LF {
        0
    } else {
        1 + line_length(bytes.skip(1))
    }
}

/// The line without the carriage return at its end, if it has one.
pub open spec fn strip_cr(line: Seq<u8>) -> Seq<u8> {
    if line.len() > 0 && line.last() == CR {
        line.drop_last()
    } else {
        line
    }
}

/// The first line of bytes that are not empty, without its line ending.
pub open spec fn first_line(bytes: Seq<u8>) -> Seq<u8> {
    let n = line_length(bytes);
    if n >= bytes.len() {
        bytes
    } else {
        strip_cr(bytes.take(n as int))
    }
}

/// What follows the first line and its line ending.
pub open spec fn after_first_line(bytes: Seq<u8>) -> Seq<u8> {
    let n = line_length(bytes);
    if n >= bytes.len() {
        Seq::empty()
    } else {
        bytes.skip(n as int + 1)
    }
}

/// The lines of a file, without their line endings.
pub open spec fn split_lines(bytes: Seq<u8>) -> Seq<Seq<u8>>
    decreases bytes.len(),
{
    if bytes.len() == 0 {
        Seq::empty()
    } else {
        seq![first_line(bytes)] + split_lines(after_first_line(bytes))
    }
}

/// Where the first `n` bytes hold no line feed and a line feed or the end
/// follows, the first line has `n` bytes.
proof fn lemma_line_length(bytes: Seq<u8>, n: int)
    requires
        0 <= n <= bytes.len(),
        forall|j: int| 0 <= j < n ==> bytes[j] != LF,
        n == bytes.len() || bytes[n] == LF,
    ensures
        line_length(bytes) == n,
    decreases n,
{
    if n > 0 {
        lemma_line_length(bytes.skip(1), n - 1);
    }
}

/// Every file has at most as many lines as bytes.
pub proof fn lemma_line_count(bytes: Seq<u8>)
    ensures
        split_lines(bytes).len() <= bytes.len(),
    decreases bytes.len(),
{
    if bytes.len() > 0 {
        lemma_line_count(after_first_line(bytes));
    }
}

/// Every line of the file is valid UTF-8.
pub open spec fn all_lines_valid(bytes: Seq<u8>) -> bool {
    forall|i: int| 0 <= i < split_lines(bytes).len() ==> valid_utf8(#[trigger] split_lines(bytes)[i])
}

/// The first line ends before the end of the bytes or at it, and a line feed
/// follows it where anything follows.
proof fn lemma_line_length_bounds(bytes: Seq<u8>)
    ensures
        line_length(bytes) <= bytes.len(),
        line_length(bytes) < bytes.len() ==> bytes[line_length(bytes) as int] == LF,
    decreases bytes.len(),
{
    if bytes.len() > 0 && bytes[0] != LF {
        lemma_line_length_bounds(bytes.skip(1));
    }
}

/// A single byte below 128 is valid UTF-8.
proof fn lemma_ascii_byte_valid(b: u8)
    requires
        b < 128,
    ensures
        valid_utf8(seq![b]),
{
    let s = seq![b];
    assert((b & 0x7f) as u32 <= 0x7f) by (bit_vector);
    assert(valid_first_scalar(s));
    assert(pop_first_scalar(s) =~= Seq::<u8>::empty());
    assert(valid_utf8(pop_first_scalar(s)));
}

/// In valid UTF-8 the bytes before a byte below 128 are valid UTF-8, and so
/// are those behind it.
proof fn lemma_valid_around_ascii(bytes: Seq<u8>, n: int)
    requires
        valid_utf8(bytes),
        0 <= n < bytes.len(),
        bytes[n] < 128,
    ensures
        valid_utf8(bytes.take(n)),
        valid_utf8(bytes.skip(n + 1)),
{
    assert(!is_continuation_byte(bytes[n]));
    is_char_boundary_iff_not_is_continuation_byte(bytes, n);
    valid_utf8_split(bytes, n);
    let behind = bytes.subrange(n, bytes.len() as int);
    assert(bytes.take(n) =~= bytes.subrange(0, n));
    assert(behind[0] == bytes[n]);
    assert(pop_first_scalar(behind) =~= bytes.skip(n + 1));
}

/// Valid UTF-8 around a byte below 128 is valid UTF-8 together with it.
proof fn lemma_valid_with_ascii(before: Seq<u8>, b: u8, behind: Seq<u8>)
    requires
        valid_utf8(before),
        b < 128,
        valid_utf8(behind),
    ensures
        valid_utf8(before.push(b) + behind),
{
    lemma_ascii_byte_valid(b);
    valid_utf8_concat(before, seq![b]);
    assert(before + seq![b] =~= before.push(b));
    valid_utf8_concat(before.push(b), behind);
}

/// A line is valid UTF-8 exactly when it is so without the carriage return
/// at its end.
proof fn lemma_strip_cr_valid(line: Seq<u8>)
    ensures
        valid_utf8(strip_cr(line)) == valid_utf8(line),
{
    if line.len() > 0 && line.last() == CR {
        let n = line.len() - 1;
        if valid_utf8(line) {
            lemma_valid_around_ascii(line, n);
            assert(line.take(n) =~= line.drop_last());
        }
        if valid_utf8(line.drop_last()) {
            assert(valid_utf8(Seq::<u8>::empty()));
            lemma_valid_with_ascii(line.drop_last(), CR, Seq::<u8>::empty());
            assert(line.drop_last().push(CR) + Seq::<u8>::empty() =~= line);
        }
    }
}

/// A file is valid UTF-8 exactly when each of its lines is: no line ending
/// falls inside the encoding of a character.
pub proof fn law_lines_valid_iff_file_valid(bytes: Seq<u8>)
    ensures
        all_lines_valid(bytes) == valid_utf8(bytes),
    decreases bytes.len(),
{
    if bytes.len() > 0 {
        let n = line_length(bytes) as int;
        let first = first_line(bytes);
        let rest = after_first_line(bytes);
        let lines = split_lines(bytes);
        lemma_line_length_bounds(bytes);
        law_lines_valid_iff_file_valid(rest);
        assert(lines[0] == first);
        assert forall|i: int| 0 <= i < split_lines(rest).len() implies split_lines(rest)[i]
            == lines[i + 1] by {}
        if n >= bytes.len() {
            assert(valid_utf8(rest));
        } else {
            let head = bytes.take(n);
            lemma_strip_cr_valid(head);
            assert(bytes =~= head.push(LF) + rest);
            if valid_utf8(bytes) {
                lemma_valid_around_ascii(bytes, n);
            }
            if valid_utf8(head) && valid_utf8(rest) {
                lemma_valid_with_ascii(head, LF, rest);
            }
            assert(valid_utf8(bytes) == (valid_utf8(first) && valid_utf8(rest)));
        }
        if all_lines_valid(bytes) {
            assert(valid_utf8(lines[0]));
            assert forall|i: int| 0 <= i < split_lines(rest).len() implies valid_utf8(
                #[trigger] split_lines(rest)[i],
            ) by {
                assert(valid_utf8(lines[i + 1]));
            }
        }
        if valid_utf8(first) && all_lines_valid(rest) {
            assert forall|i: int| 0 <= i < lines.len() implies valid_utf8(#[trigger] lines[i]) by {
                if i > 0 {
                    assert(lines[i] == split_lines(rest)[i - 1]);
                }
            }
        }
    }
}

/// Finds the line that starts at `start`: the result is the end of its
/// content and the start of the next line.
pub fn next_line(bytes: &[u8], start: usize) -> (r: (usize, usize))
    requires
        start < bytes@.len(),
    ensures
        start <= r.0 <= r.1 <= bytes@.len(),
        start < r.1,
        bytes@.subrange(start as int, r.0 as int) == first_line(bytes@.skip(start as int)),
        bytes@.skip(r.1 as int) == after_first_line(bytes@.skip(start as int)),
{
    let ghost rest = bytes@.skip(start as int);
    let mut end: usize = start;
    while end < bytes.len() && bytes[end] != LF
        invariant
            start <= end <= bytes@.len(),
            forall|j: int| start <= j < end ==> bytes@[j] != LF,
        decreases bytes@.len() - end,
    {
        end = end + 1;
    }
    proof {
        lemma_line_length(rest, end - start);
    }
    if end == bytes.len() {
        assert(bytes@.subrange(start as int, end as int) =~= rest);
        assert(bytes@.skip(end as int) =~= Seq::<u8>::empty());
        (end, end)
    } else {
        let content_end = if end > start && bytes[end - 1] == CR {
            end - 1
        } else {
            end
        };
        assert(rest.take(end - start) =~= bytes@.subrange(start as int, end as int));
        assert(bytes@.subrange(start as int, content_end as int) =~= strip_cr(
            rest.take(end - start),
        ));
        assert(bytes@.skip(end + 1) =~= rest.skip(end - start + 1));
        (content_end, end + 1)
    }
}

} // verus!
