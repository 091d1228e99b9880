//! Newline-delimited frames: how messages are cut out of the bytes that a socket
//! delivers, and how they are written.

use crate::text;
use vstd::prelude::*;

verus! {

/// Maximum size of a single JSON message over the wire, in bytes.
///
/// Messages exceeding this limit are rejected before deserialization.
pub const MAX_MESSAGE_SIZE: usize = 1_048_576;

/// What a stream of bytes begins with.
pub enum Frame {
    /// A message: the bytes before the first newline.
    Line(Seq<u8>),
    /// More bytes than a message may have.
    TooLarge,
    /// The beginning of a message.
    Incomplete,
}

/// The position of the first newline at or after `from`.
pub open spec fn newline_from(bytes: Seq<u8>, from: int) -> Option<int>
    decreases bytes.len() - from,
{
    if from < 0 || from >= bytes.len() {
        None
    } else if bytes[from] == 10 {
        Some(from)
    } else {
        newline_from(bytes, from + 1)
    }
}

/// What a stream of bytes begins with, where a message may have `max` bytes. The
/// newline does not count.
pub open spec fn frame_of(stream: Seq<u8>, max: usize) -> Frame {
    match newline_from(stream, 0) {
        Some(i) => if i <= max {
            Frame::Line(stream.take(i))
        } else {
            Frame::TooLarge
        },
        None => if stream.len() > max + 1 {
            Frame::TooLarge
        } else {
            Frame::Incomplete
        },
    }
}

/// The text of a message: nothing where its bytes are not valid UTF-8.
pub open spec fn line_text(bytes: Seq<u8>) -> Seq<char> {
    if vstd::utf8::valid_utf8(bytes) {
        vstd::utf8::decode_utf8(bytes)
    } else {
        Seq::empty()
    }
}

proof fn lemma_newline_from(bytes: Seq<u8>, from: int)
    requires
        0 <= from,
    ensures
        match newline_from(bytes, from) {
            Some(i) => from <= i < bytes.len() && bytes[i] == 10 && forall|j: int|
                from <= j < i ==> bytes[j] != 10,
            None => forall|j: int| from <= j < bytes.len() ==> bytes[j] != 10,
        },
    decreases bytes.len() - from,
{
    if from < bytes.len() && bytes[from] != 10 {
        lemma_newline_from(bytes, from + 1);
    }
}

/// The first newline is where it is found and nowhere before.
proof fn lemma_newline_at(bytes: Seq<u8>, i: int)
    requires
        0 <= i < bytes.len(),
        bytes[i] == 10,
        forall|j: int| 0 <= j < i ==> bytes[j] != 10,
    ensures
        newline_from(bytes, 0) == Some(i),
{
    lemma_newline_from(bytes, 0);
}

proof fn lemma_no_newline(bytes: Seq<u8>)
    requires
        forall|j: int| 0 <= j < bytes.len() ==> bytes[j] != 10,
    ensures
        newline_from(bytes, 0) is None,
{
    lemma_newline_from(bytes, 0);
}

/// What came of a piece of input.
#[derive(Debug)]
pub enum FrameStep {
    /// The message goes on: all of the piece was taken.
    NeedMore,
    /// A message is complete.
    Line {
        /// The message.
        text: String,
        /// How many bytes of the piece belong to it, with the newline.
        consumed: usize,
    },
    /// The message is larger than it may be.
    TooLarge,
}

/// Cuts messages out of pieces of input.
#[derive(Debug)]
pub struct LineReader {
    pending: Vec<u8>,
    max: usize,
}

impl LineReader {
    /// The bytes of the message that is being read.
    pub closed spec fn pending(&self) -> Seq<u8> {
        self.pending@
    }

    /// How many bytes a message may have.
    pub closed spec fn limit(&self) -> usize {
        self.max
    }

    /// Whether what is pending is the beginning of a message.
    pub open spec fn well_formed(&self) -> bool {
        frame_of(self.pending(), self.limit()) is Incomplete
    }

    /// A reader of messages of up to `max` bytes.
    pub fn new(max: usize) -> (r: Self)
        ensures
            r.pending() == Seq::<u8>::empty(),
            r.limit() == max,
            r.well_formed(),
    {
        LineReader { pending: Vec::new(), max }
    }

    /// Takes in a piece of input: up to the first newline, or all of it.
    ///
    /// What comes out depends on the bytes of the message alone, not on the pieces in
    /// which they come.
    pub fn feed(&mut self, chunk: &[u8]) -> (r: FrameStep)
        requires
            old(self).well_formed(),
        ensures
            final(self).limit() == old(self).limit(),
            final(self).well_formed(),
            match frame_of(old(self).pending() + chunk@, old(self).limit()) {
                Frame::Line(bytes) => r matches FrameStep::Line { text, consumed } && text@
                    == line_text(bytes) && consumed == bytes.len() + 1 - old(self).pending().len()
                    && consumed <= chunk@.len() && final(self).pending() == Seq::<u8>::empty(),
                Frame::TooLarge => r is TooLarge && final(self).pending() == Seq::<u8>::empty(),
                Frame::Incomplete => r is NeedMore && final(self).pending() == old(self).pending()
                    + chunk@,
            },
    {
        let ghost before = self.pending@;
        let ghost stream = before + chunk@;
        proof {
            lemma_newline_from(before, 0);
        }
        let mut pos: usize = 0;
        while pos < chunk.len() && chunk[pos] != 10
            invariant
                pos <= chunk@.len(),
                forall|j: int| 0 <= j < pos ==> chunk@[j] != 10,
            decreases chunk.len() - pos,
        {
            pos = pos + 1;
        }
        let total: u128 = self.pending.len() as u128 + pos as u128;
        if pos < chunk.len() {
            proof {
                lemma_newline_at(stream, before.len() + pos);
            }
            if total > self.max as u128 {
                self.pending = Vec::new();
                return FrameStep::TooLarge;
            }
            let mut bytes: Vec<u8> = Vec::new();
            std::mem::swap(&mut bytes, &mut self.pending);
            append_bytes(&mut bytes, chunk, pos);
            assert(bytes@ =~= stream.take(before.len() + pos));
            let text = match text::from_utf8(bytes) {
                Ok(text) => text,
                Err(_) => String::new(),
            };
            FrameStep::Line { text, consumed: pos + 1 }
        } else {
            proof {
                assert forall|j: int| 0 <= j < stream.len() implies stream[j] != 10 by {
                    if j >= before.len() {
                        assert(stream[j] == chunk@[j - before.len()]);
                    }
                }
                lemma_no_newline(stream);
            }
            if total > self.max as u128 + 1 {
                self.pending = Vec::new();
                return FrameStep::TooLarge;
            }
            append_bytes(&mut self.pending, chunk, pos);
            assert(self.pending@ =~= stream);
            FrameStep::NeedMore
        }
    }
}

/// Puts the first `n` bytes of a slice at the end of a vector.
fn append_bytes(bytes: &mut Vec<u8>, chunk: &[u8], n: usize)
    requires
        n <= chunk@.len(),
    ensures
        final(bytes)@ == old(bytes)@ + chunk@.take(n as int),
{
    let mut i: usize = 0;
    assert(bytes@ =~= old(bytes)@ + chunk@.take(0));
    while i < n
        invariant
            i <= n <= chunk@.len(),
            bytes@ == old(bytes)@ + chunk@.take(i as int),
        decreases n - i,
    {
        bytes.push(chunk[i]);
        assert(bytes@ =~= old(bytes)@ + chunk@.take(i + 1));
        i = i + 1;
    }
}

/// A message as it is written: on a line of its own.
pub fn frame_line(json: String) -> (r: String)
    ensures
        r@ == json@.push('\n'),
{
    let mut line = json;
    line.push('\n');
    line
}

/// More input changes nothing about a message that is complete, nor about one that is
/// too large: what a stream begins with depends on its bytes alone.
pub proof fn more_input_never_changes_a_frame(stream: Seq<u8>, more: Seq<u8>, max: usize)
    ensures
        frame_of(stream, max) is Line ==> frame_of(stream + more, max) == frame_of(stream, max),
        frame_of(stream, max) is TooLarge ==> frame_of(stream + more, max) is TooLarge,
{
    lemma_newline_from(stream, 0);
    lemma_newline_from(stream + more, 0);
    match newline_from(stream, 0) {
        Some(i) => {
            assert forall|j: int| 0 <= j < i implies (stream + more)[j] != 10 by {
                assert((stream + more)[j] == stream[j]);
            }
            lemma_newline_at(stream + more, i);
            assert((stream + more).take(i) =~= stream.take(i));
        },
        None => {
            match newline_from(stream + more, 0) {
                Some(i) => {
                    if i < stream.len() {
                        assert((stream + more)[i] == stream[i]);
                    }
                },
                None => {},
            }
        },
    }
}

/// What is written is read back: a message without a newline in it that is not too
/// large comes out of its line as it went in.
pub proof fn written_messages_are_read_back(json: Seq<char>, max: usize)
    requires
        !json.contains('\n'),
        vstd::utf8::encode_utf8(json).len() <= max,
    ensures
        frame_of(vstd::utf8::encode_utf8(json.push('\n')), max) == Frame::Line(
            vstd::utf8::encode_utf8(json),
        ),
        line_text(vstd::utf8::encode_utf8(json)) == json,
{
    let bytes = vstd::utf8::encode_utf8(json);
    let line = vstd::utf8::encode_utf8(json.push('\n'));
    lemma_encode_push_newline(json);
    lemma_no_newline_byte(json);
    lemma_newline_at(line, bytes.len() as int);
    assert(line.take(bytes.len() as int) =~= bytes);
    vstd::utf8::encode_utf8_valid_utf8(json);
    vstd::utf8::encode_utf8_decode_utf8(json);
}

proof fn lemma_encode_push_newline(s: Seq<char>)
    ensures
        vstd::utf8::encode_utf8(s.push('\n')) == vstd::utf8::encode_utf8(s).push(10u8),
    decreases s.len(),
{
    reveal_with_fuel(vstd::utf8::encode_utf8, 2);
    if s.len() == 0 {
        assert(s.push('\n').drop_first() =~= s);
        assert(10u32 & 0x7F == 10) by (bit_vector);
        assert(vstd::utf8::encode_utf8(s.push('\n')) =~= vstd::utf8::encode_utf8(s).push(10u8));
    } else {
        lemma_encode_push_newline(s.drop_first());
        assert(s.push('\n').drop_first() =~= s.drop_first().push('\n'));
        assert(vstd::utf8::encode_utf8(s.push('\n')) =~= vstd::utf8::encode_utf8(s).push(10u8));
    }
}

proof fn lemma_no_newline_byte(s: Seq<char>)
    requires
        !s.contains('\n'),
    ensures
        forall|j: int|
            0 <= j < vstd::utf8::encode_utf8(s).len() ==> vstd::utf8::encode_utf8(s)[j] != 10,
    decreases s.len(),
{
    if s.len() > 0 {
        let rest = s.drop_first();
        let first = vstd::utf8::encode_scalar(s[0] as u32);
        assert(!rest.contains('\n')) by {
            if rest.contains('\n') {
                let k = choose|k: int| 0 <= k < rest.len() && rest[k] == '\n';
                assert(s[k + 1] == '\n');
            }
        }
        lemma_no_newline_byte(rest);
        assert(s[0] as u32 != 10) by {
            if s[0] as u32 == 10 {
                vstd::utf8::char_u32_cast(s[0], 10);
                assert(s[0] == '\n');
            }
        }
        lemma_scalar_bytes(s[0] as u32);
        assert forall|j: int| 0 <= j < vstd::utf8::encode_utf8(s).len() implies vstd::utf8::encode_utf8(
            s,
        )[j] != 10 by {
            if j < first.len() {
                assert(vstd::utf8::encode_utf8(s)[j] == first[j]);
            } else {
                assert(vstd::utf8::encode_utf8(s)[j] == vstd::utf8::encode_utf8(rest)[j
                    - first.len()]);
            }
        }
    }
}

proof fn lemma_scalar_bytes(c: u32)
    requires
        c != 10,
    ensures
        forall|j: int|
            0 <= j < vstd::utf8::encode_scalar(c).len() ==> vstd::utf8::encode_scalar(c)[j] != 10,
{
    assert(c != 10 && c <= 0x7F ==> (c & 0x7F) as u8 != 10) by (bit_vector);
    assert(0xC0 | ((c >> 6) & 0x1F) as u8 != 10) by (bit_vector);
    assert(0xE0 | ((c >> 12) & 0x0F) as u8 != 10) by (bit_vector);
    assert(0xF0 | ((c >> 18) & 0x7) as u8 != 10) by (bit_vector);
    assert(0x80 | (c & 0x3F) as u8 != 10) by (bit_vector);
    assert(0x80 | ((c >> 6) & 0x3F) as u8 != 10) by (bit_vector);
    assert(0x80 | ((c >> 12) & 0x3F) as u8 != 10) by (bit_vector);
}

/// A message ends at the first newline, whatever follows: it is what stands before it, and it is
/// too large exactly where that is more than `max` bytes. Without a newline a message is not
/// complete, and too large once there are more bytes than the longest message and its newline
/// take.
pub proof fn messages_end_at_the_first_newline(line: Seq<u8>, rest: Seq<u8>, max: usize)
    requires
        forall|j: int| 0 <= j < line.len() ==> #[trigger] line[j] != 10,
    ensures
        line.len() <= max ==> frame_of(line + seq![10u8] + rest, max) == Frame::Line(line),
        line.len() > max ==> frame_of(line + seq![10u8] + rest, max) is TooLarge,
        line.len() <= max + 1 ==> frame_of(line, max) is Incomplete,
        line.len() > max + 1 ==> frame_of(line, max) is TooLarge,
        MAX_MESSAGE_SIZE == 1024 * 1024,
{
    let stream = line + seq![10u8] + rest;
    assert forall|j: int| 0 <= j < line.len() implies stream[j] != 10 by {
        assert(stream[j] == line[j]);
    }
    lemma_newline_at(stream, line.len() as int);
    assert(stream.take(line.len() as int) =~= line);
    lemma_no_newline(line);
}

/// A message of valid UTF-8 is the text that it encodes, and any other is empty.
pub proof fn messages_are_their_text(bytes: Seq<u8>)
    ensures
        vstd::utf8::valid_utf8(bytes) ==> line_text(bytes) == vstd::utf8::decode_utf8(bytes),
        !vstd::utf8::valid_utf8(bytes) ==> line_text(bytes).len() == 0,
{
}

} // verus!
