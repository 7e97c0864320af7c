//! Splitting a byte sequence into newline-delimited lines.
//!
//! A line is a maximal run of bytes not containing the line feed; the
//! terminator is not part of the line, and a trailing unterminated line is
//! still a line. Empty input has no lines.

use vstd::prelude::*;

verus! {

/// The line delimiter: a line feed byte.
pub const LINE_FEED: u8 = 10;

/// Length of the first line of `bytes`: the index of the first line feed,
/// or the length of `bytes` if there is none.
pub open spec fn first_line_len(bytes: Seq<u8>) -> int
    decreases bytes.len(),
{
    if bytes.len() == 0 {
        0
    } else if bytes[0] == LINE_FEED {
        0
    } else {
        1 + first_line_len(bytes.drop_first())
    }
}

/// The first line of `bytes`, without its terminator.
pub open spec fn first_line(bytes: Seq<u8>) -> Seq<u8> {
    bytes.take(first_line_len(bytes))
}

/// What is left of `bytes` after the first line and its terminator, if any.
pub open spec fn after_first_line(bytes: Seq<u8>) -> Seq<u8> {
    if first_line_len(bytes) == bytes.len() {
        Seq::empty()
    } else {
        bytes.skip(first_line_len(bytes) + 1)
    }
}

/// `first_line_len` is the position of the first line feed: it is in bounds,
/// it points at a line feed unless there is none, and nothing before it is
/// a line feed.
pub proof fn lemma_first_line_len(bytes: Seq<u8>)
    ensures
        0 <= first_line_len(bytes) <= bytes.len(),
        first_line_len(bytes) < bytes.len() ==> bytes[first_line_len(bytes)] == LINE_FEED,
        forall|j: int| 0 <= j < first_line_len(bytes) ==> bytes[j] != LINE_FEED,
    decreases bytes.len(),
{
    if bytes.len() == 0 {
    } else if bytes[0] == LINE_FEED {
    } else {
        lemma_first_line_len(bytes.drop_first());
        assert forall|j: int| 0 <= j < first_line_len(bytes) implies bytes[j] != LINE_FEED by {
            if j > 0 {
                assert(bytes.drop_first()[j - 1] == bytes[j]);
            }
        }
    }
}

/// The lines of `bytes`, in order, each without its terminator.
pub open spec fn split_lines(bytes: Seq<u8>) -> Seq<Seq<u8>>
    decreases bytes.len(),
{
    if bytes.len() == 0 {
        Seq::empty()
    } else {
        proof {
            lemma_first_line_len(bytes);
        }
        seq![first_line(bytes)] + split_lines(after_first_line(bytes))
    }
}

/// How many line feed bytes `bytes` holds.
pub open spec fn newline_count(bytes: Seq<u8>) -> nat
    decreases bytes.len(),
{
    if bytes.len() == 0 {
        0
    } else {
        (if bytes[0] == LINE_FEED {
            1nat
        } else {
            0nat
        }) + newline_count(bytes.drop_first())
    }
}

/// A sequence without line feed bytes has a newline count of zero.
pub proof fn lemma_newline_count_zero(bytes: Seq<u8>)
    requires
        forall|j: int| 0 <= j < bytes.len() ==> bytes[j] != LINE_FEED,
    ensures
        newline_count(bytes) == 0,
    decreases bytes.len(),
{
    if bytes.len() > 0 {
        assert forall|j: int| 0 <= j < bytes.drop_first().len() implies bytes.drop_first()[j]
            != LINE_FEED by {
            assert(bytes.drop_first()[j] == bytes[j + 1]);
        }
        lemma_newline_count_zero(bytes.drop_first());
    }
}

/// The newline count distributes over concatenation.
pub proof fn lemma_newline_count_concat(a: Seq<u8>, b: Seq<u8>)
    ensures
        newline_count(a + b) == newline_count(a) + newline_count(b),
    decreases a.len(),
{
    if a.len() == 0 {
        assert(a + b =~= b);
    } else {
        lemma_newline_count_concat(a.drop_first(), b);
        assert((a + b).drop_first() =~= a.drop_first() + b);
    }
}

/// Law of line numbering: the number of lines is the number of line feeds,
/// plus one more for a trailing unterminated line.
pub proof fn lemma_line_count(bytes: Seq<u8>)
    ensures
        split_lines(bytes).len() == if bytes.len() == 0 {
            0nat
        } else if bytes.last() == LINE_FEED {
            newline_count(bytes)
        } else {
            newline_count(bytes) + 1
        },
    decreases bytes.len(),
{
    if bytes.len() == 0 {
    } else {
        lemma_first_line_len(bytes);
        let f = first_line_len(bytes);
        let rest = after_first_line(bytes);
        lemma_line_count(rest);
        if f == bytes.len() {
            lemma_newline_count_zero(bytes);
        } else {
            assert(bytes =~= bytes.take(f) + seq![LINE_FEED] + bytes.skip(f + 1));
            lemma_newline_count_concat(bytes.take(f) + seq![LINE_FEED], bytes.skip(f + 1));
            lemma_newline_count_concat(bytes.take(f), seq![LINE_FEED]);
            lemma_newline_count_zero(bytes.take(f));
            assert(newline_count(seq![LINE_FEED]) == 1) by {
                reveal_with_fuel(newline_count, 2);
                assert(seq![LINE_FEED].drop_first() =~= Seq::<u8>::empty());
            }
            if rest.len() == 0 {
                assert(bytes.last() == LINE_FEED);
            } else {
                assert(bytes.last() == rest.last());
            }
        }
    }
}

/// There are never more lines than bytes.
pub proof fn lemma_split_lines_len_le(bytes: Seq<u8>)
    ensures
        split_lines(bytes).len() <= bytes.len(),
    decreases bytes.len(),
{
    if bytes.len() > 0 {
        lemma_first_line_len(bytes);
        lemma_split_lines_len_le(after_first_line(bytes));
    }
}

/// Puts split lines back together: each line followed by a line feed, except
/// that the last line gets one only when `terminated` asks for it.
pub open spec fn join_lines(lines: Seq<Seq<u8>>, terminated: bool) -> Seq<u8>
    decreases lines.len(),
{
    if lines.len() == 0 {
        Seq::empty()
    } else if lines.len() == 1 {
        if terminated {
            lines[0] + seq![LINE_FEED]
        } else {
            lines[0]
        }
    } else {
        lines[0] + seq![LINE_FEED] + join_lines(lines.drop_first(), terminated)
    }
}

/// Splitting loses nothing: joining the lines back, with a trailing line feed
/// exactly when the input ended in one, rebuilds the input byte for byte.
pub proof fn lemma_split_lines_reconstruct(bytes: Seq<u8>)
    ensures
        bytes =~= join_lines(split_lines(bytes), bytes.len() > 0 && bytes.last() == LINE_FEED),
    decreases bytes.len(),
{
    if bytes.len() == 0 {
    } else {
        lemma_first_line_len(bytes);
        let f = first_line_len(bytes);
        let rest = after_first_line(bytes);
        lemma_split_lines_reconstruct(rest);
        if f == bytes.len() {
            assert(split_lines(rest) =~= Seq::<Seq<u8>>::empty());
            assert(first_line(bytes) =~= bytes);
            assert(bytes.last() != LINE_FEED);
        } else {
            assert(bytes =~= bytes.take(f) + seq![LINE_FEED] + bytes.skip(f + 1));
            if rest.len() == 0 {
                assert(split_lines(bytes).len() == 1);
                assert(f + 1 == bytes.len());
                assert(bytes.last() == LINE_FEED);
                assert(bytes =~= first_line(bytes) + seq![LINE_FEED]);
            } else {
                assert(split_lines(bytes).drop_first() =~= split_lines(rest));
                assert(split_lines(bytes).len() > 1);
                assert(bytes.last() == rest.last());
            }
        }
    }
}

/// No line holds a line feed: the terminator is excluded from line content.
pub proof fn lemma_lines_have_no_line_feed(bytes: Seq<u8>)
    ensures
        forall|i: int, j: int|
            0 <= i < split_lines(bytes).len() && 0 <= j < split_lines(bytes)[i].len()
                ==> split_lines(bytes)[i][j] != LINE_FEED,
    decreases bytes.len(),
{
    if bytes.len() > 0 {
        lemma_first_line_len(bytes);
        lemma_lines_have_no_line_feed(after_first_line(bytes));
        let lines = split_lines(bytes);
        let rest = split_lines(after_first_line(bytes));
        assert forall|i: int, j: int|
            0 <= i < lines.len() && 0 <= j < lines[i].len() implies lines[i][j]
            != LINE_FEED by {
            if i == 0 {
                assert(lines[0] == first_line(bytes));
                assert(first_line(bytes)[j] == bytes[j]);
            } else {
                assert(lines[i] == rest[i - 1]);
            }
        }
    }
}

} // verus!
