//! The line processor: drives a stream source through the line splitter,
//! hands each line to a per-line action, and converts the first failure into
//! a `LineError` carrying the 1-based number of the failing line.
//!
//! Processing is fail-fast: nothing past the first failing line is read.

use vstd::prelude::*;
use vstd::utf8::{decode_utf8, valid_utf8};
use crate::line_error::LineError;
use crate::lines::{first_line, lemma_first_line_len, lemma_split_lines_len_le, split_lines};
use crate::memory::MemReader;
use crate::stream_error::{StreamError, StreamErrorKind};
use crate::text::decode_text;

verus! {

/// The index of the first line that is not valid text, or the number of
/// lines when every line is valid.
pub open spec fn first_invalid(lines: Seq<Seq<u8>>) -> int
    decreases lines.len(),
{
    if lines.len() == 0 {
        0
    } else if !valid_utf8(lines[0]) {
        0
    } else {
        1 + first_invalid(lines.drop_first())
    }
}

/// `first_invalid` is in bounds, points at an invalid line unless every line
/// is valid, and everything before it is valid.
pub proof fn lemma_first_invalid(lines: Seq<Seq<u8>>)
    ensures
        0 <= first_invalid(lines) <= lines.len(),
        first_invalid(lines) < lines.len() ==> !valid_utf8(lines[first_invalid(lines)]),
        forall|j: int| 0 <= j < first_invalid(lines) ==> valid_utf8(lines[j]),
    decreases lines.len(),
{
    if lines.len() == 0 {
    } else if !valid_utf8(lines[0]) {
    } else {
        lemma_first_invalid(lines.drop_first());
        assert forall|j: int| 0 <= j < first_invalid(lines) implies valid_utf8(lines[j]) by {
            if j > 0 {
                assert(lines.drop_first()[j - 1] == lines[j]);
            }
        }
    }
}

/// Reads every remaining line of the source, decoding each as text: the
/// values a per-line action would receive, in order. Reading stops at the
/// first line that is not valid text; the lines before it are still returned,
/// together with a `LineError` carrying the failing line's 1-based number.
pub fn collect_lines(source: &mut MemReader) -> (r: (Vec<String>, Option<LineError>))
    requires
        old(source).well_formed(),
    ensures
        final(source).well_formed(),
        ({
            let lines = split_lines(old(source).remaining());
            let k = first_invalid(lines);
            &&& r.0@.len() == k
            &&& (forall|i: int| 0 <= i < k ==> r.0@[i]@ == decode_utf8(lines[i]))
            &&& (r.1 is None <==> k == lines.len())
            &&& (r.1 is None ==> final(source).remaining().len() == 0)
            &&& (r.1 matches Some(e) ==> e.spec_line() == Some((k + 1) as usize)
                && e.spec_cause().spec_kind() == StreamErrorKind::InvalidData
                && e.spec_cause().spec_message() == "stream did not contain valid UTF-8"@
                && split_lines(final(source).remaining()) == lines.skip(k + 1))
        }),
{
    let ghost all = split_lines(old(source).remaining());
    proof {
        lemma_first_invalid(all);
        lemma_split_lines_len_le(old(source).remaining());
    }
    let total = source.remaining_len();
    let mut out: Vec<String> = Vec::new();
    let mut k: usize = 0;
    loop
        invariant
            source.well_formed(),
            all == split_lines(old(source).remaining()),
            all.len() <= total as int,
            0 <= k as int <= all.len(),
            split_lines(source.remaining()) == all.skip(k as int),
            out@.len() == k as int,
            forall|i: int|
                0 <= i < k as int ==> valid_utf8(#[trigger] all[i]) && out@[i]@ == decode_utf8(
                    all[i],
                ),
        decreases source.remaining().len(),
    {
        let ghost rem_before = source.remaining();
        proof {
            lemma_first_line_len(rem_before);
        }
        match source.read_line() {
            None => {
                proof {
                    lemma_first_invalid(all);
                    assert(all.skip(k as int).len() == 0);
                    assert(k as int == all.len());
                    if first_invalid(all) < all.len() {
                        assert(!valid_utf8(all[first_invalid(all)]));
                        assert(false);
                    }
                }
                return (out, None);
            },
            Some(line_bytes) => {
                proof {
                    lemma_first_invalid(all);
                    assert(rem_before.len() > 0);
                    let tail = split_lines(source.remaining());
                    assert(split_lines(rem_before) == seq![first_line(rem_before)] + tail);
                    assert(all.skip(k as int).len() == 1 + tail.len());
                    assert((k as int) < all.len());
                    assert(all.skip(k as int)[0] == all[k as int]);
                    assert(line_bytes@ == all[k as int]);
                    assert(tail =~= all.skip(k as int + 1)) by {
                        assert forall|i: int| 0 <= i < tail.len() implies tail[i] == all.skip(
                            k as int + 1,
                        )[i] by {
                            assert(tail[i] == all.skip(k as int)[i + 1]);
                            assert(all.skip(k as int)[i + 1] == all[k as int + 1 + i]);
                            assert(all.skip(k as int + 1)[i] == all[k as int + 1 + i]);
                        }
                    }
                }
                match decode_text(line_bytes) {
                    Some(s) => {
                        out.push(s);
                        k = k + 1;
                    },
                    None => {
                        proof {
                            assert(!valid_utf8(all[k as int]));
                            if first_invalid(all) < k as int {
                                assert(valid_utf8(all[first_invalid(all)]));
                                assert(!valid_utf8(all[first_invalid(all)]));
                                assert(false);
                            }
                            if first_invalid(all) > k as int {
                                assert(valid_utf8(all[k as int]));
                                assert(false);
                            }
                        }
                        let cause = StreamError::new(
                            StreamErrorKind::InvalidData,
                            String::from_str("stream did not contain valid UTF-8"),
                        );
                        return (out, Some(LineError::new(Some(k + 1), cause)));
                    },
                }
            },
        }
    }
}

/// Drives the source through the line splitter: numbers the lines starting
/// at 1, hands each line's text to the action in order, and stops at the
/// first line that cannot be read as text, returning a `LineError` carrying
/// that line's number. Success means every line was read and handed over.
pub fn process_lines<F: Fn(String)>(source: &mut MemReader, action: F) -> (r: Result<
    (),
    LineError,
>)
    requires
        old(source).well_formed(),
        forall|s: String| #[trigger] call_requires(action, (s,)),
    ensures
        final(source).well_formed(),
        ({
            let lines = split_lines(old(source).remaining());
            let k = first_invalid(lines);
            &&& (r is Ok <==> k == lines.len())
            &&& (r is Ok ==> final(source).remaining().len() == 0)
            &&& (r matches Err(e) ==> e.spec_line() == Some((k + 1) as usize)
                && e.spec_cause().spec_kind() == StreamErrorKind::InvalidData
                && e.spec_cause().spec_message() == "stream did not contain valid UTF-8"@
                && split_lines(final(source).remaining()) == lines.skip(k + 1))
        }),
{
    let ghost all = split_lines(old(source).remaining());
    proof {
        lemma_first_invalid(all);
        lemma_split_lines_len_le(old(source).remaining());
    }
    let total = source.remaining_len();
    let mut k: usize = 0;
    loop
        invariant
            source.well_formed(),
            all == split_lines(old(source).remaining()),
            all.len() <= total as int,
            0 <= k as int <= all.len(),
            split_lines(source.remaining()) == all.skip(k as int),
            forall|i: int| 0 <= i < k as int ==> valid_utf8(#[trigger] all[i]),
            forall|s: String| #[trigger] call_requires(action, (s,)),
        decreases source.remaining().len(),
    {
        let ghost rem_before = source.remaining();
        proof {
            lemma_first_line_len(rem_before);
        }
        match source.read_line() {
            None => {
                proof {
                    lemma_first_invalid(all);
                    assert(all.skip(k as int).len() == 0);
                    assert(k as int == all.len());
                    if first_invalid(all) < all.len() {
                        assert(!valid_utf8(all[first_invalid(all)]));
                        assert(false);
                    }
                }
                return Ok(());
            },
            Some(line_bytes) => {
                proof {
                    lemma_first_invalid(all);
                    assert(rem_before.len() > 0);
                    let tail = split_lines(source.remaining());
                    assert(split_lines(rem_before) == seq![first_line(rem_before)] + tail);
                    assert(all.skip(k as int).len() == 1 + tail.len());
                    assert((k as int) < all.len());
                    assert(all.skip(k as int)[0] == all[k as int]);
                    assert(line_bytes@ == all[k as int]);
                    assert(tail =~= all.skip(k as int + 1)) by {
                        assert forall|i: int| 0 <= i < tail.len() implies tail[i] == all.skip(
                            k as int + 1,
                        )[i] by {
                            assert(tail[i] == all.skip(k as int)[i + 1]);
                            assert(all.skip(k as int)[i + 1] == all[k as int + 1 + i]);
                            assert(all.skip(k as int + 1)[i] == all[k as int + 1 + i]);
                        }
                    }
                }
                match decode_text(line_bytes) {
                    Some(s) => {
                        action(s);
                        k = k + 1;
                    },
                    None => {
                        proof {
                            assert(!valid_utf8(all[k as int]));
                            if first_invalid(all) < k as int {
                                assert(valid_utf8(all[first_invalid(all)]));
                                assert(!valid_utf8(all[first_invalid(all)]));
                                assert(false);
                            }
                            if first_invalid(all) > k as int {
                                assert(valid_utf8(all[k as int]));
                                assert(false);
                            }
                        }
                        let cause = StreamError::new(
                            StreamErrorKind::InvalidData,
                            String::from_str("stream did not contain valid UTF-8"),
                        );
                        return Err(LineError::new(Some(k + 1), cause));
                    },
                }
            },
        }
    }
}

} // verus!
