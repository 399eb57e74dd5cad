//! Framing of a server-sent event stream: bytes arrive in arbitrary pieces,
//! lines are cut out of them, and each line is either the payload of an
//! event, the end-of-stream mark, or noise. Decoding a payload is left to the
//! caller.

use crate::text::{
    begins_with, bytes_to_string_lossy, chars_of, decode_lossy, slice_chars, string_from_chars,
    trim, trim_spec,
};
use vstd::prelude::*;

verus! {

/// What the adapter found in what it has buffered.
pub enum SseStep {
    /// The payload of one event, as text.
    Data(String),
    /// The end-of-stream mark `[DONE]`.
    Done,
    /// No complete line is left: more bytes are needed.
    NeedMore,
}

/// The mathematical value of an [`SseStep`].
pub enum SseStepView {
    Data(Seq<char>),
    Done,
    NeedMore,
}

impl View for SseStep {
    type V = SseStepView;

    open spec fn view(&self) -> SseStepView {
        match self {
            SseStep::Data(d) => SseStepView::Data(d@),
            SseStep::Done => SseStepView::Done,
            SseStep::NeedMore => SseStepView::NeedMore,
        }
    }
}

/// The marker that introduces the payload of an event.
pub open spec fn data_marker() -> Seq<char> {
    seq!['d', 'a', 't', 'a', ':', ' ']
}

/// The payload that ends a stream.
pub open spec fn done_mark() -> Seq<char> {
    seq!['[', 'D', 'O', 'N', 'E', ']']
}

/// What one line of the stream is: its bytes are decoded, with U+FFFD for
/// what is not UTF-8, and trimmed; a line that begins with `data: ` carries
/// what follows as its payload, and the payload `[DONE]` ends the stream.
/// Every other line, the empty one too, is passed over (`NeedMore`).
pub open spec fn classify_line(line: Seq<u8>) -> SseStepView {
    let text = trim_spec(decode_lossy(line));
    if data_marker().is_prefix_of(text) {
        let payload = text.subrange(6, text.len() as int);
        if payload == done_mark() {
            SseStepView::Done
        } else {
            SseStepView::Data(payload)
        }
    } else {
        SseStepView::NeedMore
    }
}

/// The position of the first line feed in `buf`, or -1 when there is none.
pub open spec fn first_newline(buf: Seq<u8>) -> int
    decreases buf.len(),
{
    if buf.len() == 0 {
        -1
    } else if buf[0] == 10 {
        0
    } else {
        let rest = first_newline(buf.drop_first());
        if rest < 0 {
            -1
        } else {
            rest + 1
        }
    }
}

/// The first line feed is where no line feed stands before.
pub proof fn lemma_first_newline(buf: Seq<u8>, scanned: int)
    requires
        0 <= scanned <= buf.len(),
        forall|j: int| 0 <= j < scanned ==> buf[j] != 10,
    ensures
        scanned < buf.len() && buf[scanned] == 10 ==> first_newline(buf) == scanned,
        scanned == buf.len() ==> first_newline(buf) == -1,
        -1 <= first_newline(buf) < buf.len(),
    decreases buf.len(),
{
    if buf.len() > 0 && buf[0] != 10 {
        let rest = buf.drop_first();
        assert forall|j: int| 0 <= j < scanned - 1 implies rest[j] != 10 by {
            assert(rest[j] == buf[j + 1]);
        }
        if scanned > 0 {
            lemma_first_newline(rest, scanned - 1);
        } else {
            lemma_first_newline(rest, 0);
        }
    }
}

/// What the buffered bytes yield next, and what stays buffered afterwards:
/// complete lines are taken from the front until one is a payload or the end
/// mark; when no complete line is left, more bytes are needed.
pub open spec fn next_event(buf: Seq<u8>) -> (SseStepView, Seq<u8>)
    decreases buf.len(),
{
    let at = first_newline(buf);
    if 0 <= at < buf.len() {
        let line = buf.take(at + 1);
        let rest = buf.skip(at + 1);
        match classify_line(line) {
            SseStepView::NeedMore => next_event(rest),
            found => (found, rest),
        }
    } else {
        (SseStepView::NeedMore, buf)
    }
}

/// What bytes that were left without a line feed yield when the stream ends:
/// their payload, if they are an event and not the end mark.
pub open spec fn last_event(buf: Seq<u8>) -> Option<Seq<char>> {
    if buf.len() == 0 {
        None
    } else {
        match classify_line(buf) {
            SseStepView::Data(payload) => Some(payload),
            _ => None,
        }
    }
}

/// Classifies one line.
pub fn classify(line: &Vec<u8>) -> (r: SseStep)
    ensures
        r@ == classify_line(line@),
{
    let decoded = bytes_to_string_lossy(line);
    let text = trim(&chars_of(decoded.as_str()));
    let marker: Vec<char> = vec!['d', 'a', 't', 'a', ':', ' '];
    let done: Vec<char> = vec!['[', 'D', 'O', 'N', 'E', ']'];
    assert(marker@ =~= data_marker());
    assert(done@ =~= done_mark());
    if begins_with(&text, &marker) {
        let payload = slice_chars(&text, 6, text.len());
        if payload.len() == done.len() && begins_with(&payload, &done) {
            assert(payload@.subrange(0, 6) =~= payload@);
            SseStep::Done
        } else {
            proof {
                if payload@ == done_mark() {
                    assert(done@.subrange(0, 6) =~= done@);
                }
            }
            SseStep::Data(string_from_chars(&payload))
        }
    } else {
        SseStep::NeedMore
    }
}

/// Cuts events out of a stream of bytes. `inner` is the source of the bytes,
/// which the caller polls; `buffer` holds what has arrived and is not yet
/// consumed.
pub struct SSEStreamAdapter<S> {
    pub inner: S,
    pub buffer: Vec<u8>,
}

impl<S> SSEStreamAdapter<S> {
    /// An adapter over `inner` with nothing buffered.
    pub fn new(inner: S) -> (r: Self)
        ensures
            r.inner == inner,
            r.buffer@ == Seq::<u8>::empty(),
    {
        SSEStreamAdapter { inner, buffer: Vec::new() }
    }

    /// Takes in bytes that the source delivered.
    pub fn feed(&mut self, bytes: &[u8])
        ensures
            final(self).buffer@ == old(self).buffer@ + bytes@,
            final(self).inner == old(self).inner,
    {
        let mut i: usize = 0;
        while i < bytes.len()
            invariant
                i <= bytes.len(),
                self.buffer@ == old(self).buffer@ + bytes@.take(i as int),
                self.inner == old(self).inner,
            decreases bytes.len() - i,
        {
            self.buffer.push(bytes[i]);
            assert(bytes@.take(i + 1) =~= bytes@.take(i as int).push(bytes@[i as int]));
            i += 1;
        }
        assert(bytes@.take(bytes@.len() as int) =~= bytes@);
    }

    /// Takes the next event out of what is buffered.
    pub fn next_step(&mut self) -> (r: SseStep)
        ensures
            (r@, final(self).buffer@) == next_event(old(self).buffer@),
            final(self).inner == old(self).inner,
    {
        loop
            invariant
                next_event(self.buffer@) == next_event(old(self).buffer@),
                self.inner == old(self).inner,
            decreases self.buffer@.len(),
        {
            let mut at: usize = 0;
            while at < self.buffer.len() && self.buffer[at] != 10
                invariant
                    at <= self.buffer@.len(),
                    forall|j: int| 0 <= j < at ==> self.buffer@[j] != 10,
                decreases self.buffer@.len() - at,
            {
                at += 1;
            }
            proof {
                lemma_first_newline(self.buffer@, at as int);
            }
            if at == self.buffer.len() {
                return SseStep::NeedMore;
            }
            let ghost whole = self.buffer@;
            let rest = self.buffer.split_off(at + 1);
            assert(self.buffer@ =~= whole.take(at + 1));
            assert(rest@ =~= whole.skip(at + 1));
            let found = classify(&self.buffer);
            self.buffer = rest;
            match found {
                SseStep::NeedMore => {},
                _ => {
                    return found;
                },
            }
        }
    }

    /// Takes what the end of the stream leaves: the payload of a last line
    /// that came without a line feed. Nothing stays buffered.
    pub fn finish(&mut self) -> (r: Option<String>)
        ensures
            crate::search::optional_text(r) == last_event(old(self).buffer@),
            final(self).buffer@ == Seq::<u8>::empty(),
            final(self).inner == old(self).inner,
    {
        if self.buffer.len() == 0 {
            return None;
        }
        let found = classify(&self.buffer);
        self.buffer.clear();
        match found {
            SseStep::Data(payload) => Some(payload),
            _ => None,
        }
    }
}

} // verus!
