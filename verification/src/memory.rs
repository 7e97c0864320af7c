//! The in-memory variants of the stream source and the stream sink.
//!
//! A source owns a byte buffer and a cursor; reading hands out the bytes in
//! order. A sink owns a growing byte buffer; writing appends, and extraction
//! decodes the whole buffer as text.

use vstd::prelude::*;
use vstd::string::StrSliceExecFns;
use vstd::string::StringExecFns;
use vstd::utf8::{decode_utf8, encode_utf8, valid_utf8};
use crate::lines::{after_first_line, first_line, first_line_len, lemma_first_line_len, LINE_FEED};
use crate::stream_error::{StreamError, StreamErrorKind};
use crate::text::decode_text;

verus! {

/// An in-memory stream source: a byte buffer with a read cursor.
pub struct MemReader {
    data: Vec<u8>,
    pos: usize,
}

impl MemReader {
    /// The full underlying buffer, which reading never changes.
    pub closed spec fn contents(&self) -> Seq<u8> {
        self.data@
    }

    /// The read cursor: how many bytes have been handed out.
    pub closed spec fn position(&self) -> int {
        self.pos as int
    }

    /// The cursor never passes the end of the buffer.
    pub open spec fn well_formed(&self) -> bool {
        0 <= self.position() <= self.contents().len()
    }

    /// The bytes not yet read.
    pub open spec fn remaining(&self) -> Seq<u8> {
        self.contents().skip(self.position())
    }

    /// A source over the given text, or over nothing: the in-memory
    /// counterpart of binding a source to standard input or to a file.
    pub fn memory(init: Option<String>) -> (r: Self)
        ensures
            r.well_formed(),
            r.position() == 0,
            r.contents() == match init {
                Some(s) => encode_utf8(s@),
                None => Seq::<u8>::empty(),
            },
    {
        match init {
            Some(s) => MemReader { data: s.as_str().as_bytes_vec(), pos: 0 },
            None => MemReader { data: Vec::new(), pos: 0 },
        }
    }

    /// A source over the bytes of the given text, at its first byte.
    pub fn from_string(s: &str) -> (r: Self)
        ensures
            r.well_formed(),
            r.position() == 0,
            r.contents() == encode_utf8(s@),
    {
        MemReader { data: s.as_bytes_vec(), pos: 0 }
    }

    /// A source over raw bytes, at the first one.
    pub fn from_bytes(data: Vec<u8>) -> (r: Self)
        ensures
            r.well_formed(),
            r.position() == 0,
            r.contents() == data@,
    {
        MemReader { data, pos: 0 }
    }

    /// How many bytes are left to read.
    pub fn remaining_len(&self) -> (n: usize)
        requires
            self.well_formed(),
        ensures
            n == self.remaining().len(),
    {
        self.data.len() - self.pos
    }

    /// The next chunk of at most `buf_size` bytes; an empty chunk signals the
    /// end of the stream (or a zero-sized request).
    pub fn read(&mut self, buf_size: usize) -> (chunk: Vec<u8>)
        requires
            old(self).well_formed(),
        ensures
            final(self).well_formed(),
            final(self).contents() == old(self).contents(),
            chunk@.len() == if buf_size as int <= old(self).remaining().len() {
                buf_size as int
            } else {
                old(self).remaining().len() as int
            },
            chunk@ == old(self).remaining().take(chunk@.len() as int),
            final(self).position() == old(self).position() + chunk@.len(),
    {
        let mut chunk: Vec<u8> = Vec::new();
        let mut i: usize = 0;
        while i < buf_size && self.pos < self.data.len()
            invariant
                old(self).well_formed(),
                self.data@ == old(self).data@,
                self.pos as int == old(self).pos as int + i as int,
                self.pos <= self.data.len(),
                i <= buf_size,
                chunk@.len() == i as int,
                chunk@ == old(self).remaining().take(i as int),
            decreases buf_size - i,
        {
            let b = self.data[self.pos];
            chunk.push(b);
            self.pos = self.pos + 1;
            i = i + 1;
            proof {
                assert(old(self).remaining().take(i as int) =~= old(self).remaining().take(
                    i as int - 1,
                ).push(old(self).remaining()[i as int - 1]));
            }
        }
        chunk
    }

    /// The next line, without its terminator; `None` at the end of the
    /// stream. A trailing line without a terminator is still handed out.
    pub fn read_line(&mut self) -> (r: Option<Vec<u8>>)
        requires
            old(self).well_formed(),
        ensures
            final(self).well_formed(),
            final(self).contents() == old(self).contents(),
            r is None <==> old(self).remaining().len() == 0,
            r is None ==> final(self).position() == old(self).position(),
            r matches Some(l) ==> l@ == first_line(old(self).remaining())
                && final(self).remaining() == after_first_line(old(self).remaining()),
    {
        if self.pos == self.data.len() {
            return None;
        }
        let ghost rem = self.remaining();
        let ghost start = self.pos as int;
        let mut line: Vec<u8> = Vec::new();
        while self.pos < self.data.len() && self.data[self.pos] != LINE_FEED
            invariant
                old(self).well_formed(),
                self.data@ == old(self).data@,
                start == old(self).pos as int,
                start <= self.pos as int <= self.data@.len(),
                line@ == self.data@.subrange(start, self.pos as int),
                forall|j: int| start <= j < self.pos as int ==> self.data@[j] != LINE_FEED,
            decreases self.data@.len() - self.pos as int,
        {
            let b = self.data[self.pos];
            line.push(b);
            self.pos = self.pos + 1;
            proof {
                assert(self.data@.subrange(start, self.pos as int) =~= self.data@.subrange(
                    start,
                    self.pos as int - 1,
                ).push(self.data@[self.pos as int - 1]));
            }
        }
        proof {
            lemma_first_line_len(rem);
            assert(rem =~= self.data@.skip(start));
            let i = self.pos as int - start;
            let f = first_line_len(rem);
            assert forall|j: int| 0 <= j < i implies rem[j] != LINE_FEED by {
                assert(rem[j] == self.data@[start + j]);
            }
            if f < i {
                assert(rem[f] == LINE_FEED);
                assert(false);
            }
            if f > i {
                assert(i < rem.len());
                assert(rem[i] != LINE_FEED);
                assert(rem[i] == self.data@[self.pos as int]);
                assert(false);
            }
            assert(line@ =~= first_line(rem));
        }
        if self.pos < self.data.len() {
            // consume the terminator, which is not part of the line
            self.pos = self.pos + 1;
            proof {
                assert(self.remaining() =~= after_first_line(rem));
            }
        } else {
            proof {
                assert(self.remaining() =~= after_first_line(rem));
            }
        }
        Some(line)
    }
}

/// An in-memory stream sink: a byte buffer that writing appends to.
pub struct MemWriter {
    data: Vec<u8>,
}

impl MemWriter {
    /// Every byte written so far, in order.
    pub closed spec fn buffer(&self) -> Seq<u8> {
        self.data@
    }

    /// A sink starting empty: the in-memory counterpart of binding a sink to
    /// standard output or to a file.
    pub fn memory() -> (r: Self)
        ensures
            r.buffer() == Seq::<u8>::empty(),
    {
        MemWriter { data: Vec::new() }
    }

    /// Appends the given bytes to the buffer; the memory sink always accepts
    /// all of them, and the count written is returned.
    pub fn write(&mut self, buf: &[u8]) -> (n: usize)
        ensures
            final(self).buffer() == old(self).buffer() + buf@,
            n == buf@.len(),
    {
        let n = buf.len();
        self.data.extend_from_slice(buf);
        n
    }

    /// Settles any buffering; the memory sink has none, so the buffer is
    /// unchanged and the operation cannot fail.
    pub fn flush(&mut self)
        ensures
            final(self).buffer() == old(self).buffer(),
    {
    }

    /// Extracts the whole buffer as text: succeeds exactly when the bytes
    /// written form a valid encoding, and then returns precisely the text
    /// they encode.
    pub fn show_buffer(self) -> (r: Result<String, StreamError>)
        ensures
            valid_utf8(self.buffer()) ==> (r matches Ok(s) && s@ == decode_utf8(self.buffer())),
            !valid_utf8(self.buffer()) ==> (r matches Err(e) && e.spec_kind()
                == StreamErrorKind::InvalidData && e.spec_message()
                == "stream did not contain valid UTF-8"@),
    {
        match decode_text(self.data) {
            Some(s) => Ok(s),
            None => Err(
                StreamError::new(
                    StreamErrorKind::InvalidData,
                    String::from_str("stream did not contain valid UTF-8"),
                ),
            ),
        }
    }
}

/// The UTF-8 encodings of a sequence of text fragments, in order: what a
/// sequence of write calls hands a sink when each call writes one fragment.
pub open spec fn encoded_fragments(texts: Seq<Seq<char>>) -> Seq<Seq<u8>> {
    Seq::new(texts.len(), |i: int| encode_utf8(texts[i]))
}

/// UTF-8 encoding distributes over concatenation.
pub proof fn lemma_encode_utf8_concat(a: Seq<char>, b: Seq<char>)
    ensures
        encode_utf8(a + b) == encode_utf8(a) + encode_utf8(b),
    decreases a.len(),
{
    if a.len() == 0 {
        assert(a + b =~= b);
        assert(encode_utf8(a) + encode_utf8(b) =~= encode_utf8(b));
    } else {
        lemma_encode_utf8_concat(a.drop_first(), b);
        assert((a + b).drop_first() =~= a.drop_first() + b);
        assert((a + b)[0] == a[0]);
        assert(encode_utf8(a + b) =~= encode_utf8(a) + encode_utf8(b));
    }
}

/// Law of the round trip: a sink that received, write by write, the encoded
/// bytes of any sequence of text fragments holds exactly the encoding of
/// their concatenation; that encoding is valid, so extraction succeeds, and
/// it decodes back to exactly the concatenated text.
pub proof fn lemma_round_trip(texts: Seq<Seq<char>>)
    ensures
        encoded_fragments(texts).flatten() == encode_utf8(texts.flatten()),
        valid_utf8(encode_utf8(texts.flatten())),
        decode_utf8(encode_utf8(texts.flatten())) == texts.flatten(),
    decreases texts.len(),
{
    broadcast use vstd::utf8::encode_utf8_valid_utf8, vstd::utf8::encode_utf8_decode_utf8;

    if texts.len() == 0 {
        assert(encoded_fragments(texts).flatten() =~= Seq::<u8>::empty());
        assert(encode_utf8(texts.flatten()) =~= Seq::<u8>::empty());
    } else {
        lemma_round_trip(texts.drop_first());
        lemma_encode_utf8_concat(texts[0], texts.drop_first().flatten());
        assert(encoded_fragments(texts).drop_first() =~= encoded_fragments(texts.drop_first()));
        assert(texts.flatten() == texts[0] + texts.drop_first().flatten());
        assert(encoded_fragments(texts).flatten() == encode_utf8(texts[0]) + encoded_fragments(
            texts.drop_first(),
        ).flatten());
    }
}

} // verus!
