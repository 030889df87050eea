//! The decoder of a streamed answer.
//!
//! An answer comes as lines: `data:` lines hold one JSON chunk each, `data: [DONE]` ends the
//! answer, everything else is ignored. The bytes come in pieces that may cut a line anywhere. The
//! decoder takes the pieces as they come and hands the chunks out one by one; where the bytes come
//! from, and waiting for them, is the caller's.

use vstd::prelude::*;
use vstd::utf8::{decode_utf8, valid_utf8};

use crate::providers::delta::{parse_chunk, StreamDelta};
use crate::providers::delta::{chunk_in, StreamDeltaView};
use crate::providers::error::{ProviderError, ProviderErrorView};
use crate::text::{chars_of, same_text, stands_at, string_of_range, trim_end_at, trim_start_at};
use crate::text::{begins, trim_end, trim_start};

verus! {

/// The payload that ends an answer.
pub const DONE_SENTINEL: &'static str = "[DONE]";

/// The text that `String::from_utf8_lossy` makes of bytes.
pub uninterp spec fn lossy(bytes: Seq<u8>) -> Seq<char>;

/// `String::from_utf8_lossy`: valid UTF-8 is decoded. What stands for bytes that are not valid is
/// left unsaid.
#[verifier::external_body]
pub(crate) fn lossy_text(bytes: &[u8]) -> (r: String)
    ensures
        r@ == lossy(bytes@),
        valid_utf8(bytes@) ==> r@ == decode_utf8(bytes@),
{
    String::from_utf8_lossy(bytes).into_owned()
}

/// A chunk, or why there is none.
pub type Item = Result<StreamDelta, ProviderError>;

/// What an item is, as mathematics.
pub type ItemView = Result<StreamDeltaView, ProviderErrorView>;

/// What an item is, as mathematics.
pub open spec fn item_view(item: Item) -> ItemView {
    match item {
        Ok(d) => Ok(d.deep_view()),
        Err(e) => Err(e.deep_view()),
    }
}

/// What a line says.
pub enum LineView {
    /// Nothing.
    Ignored,
    /// That the answer is complete.
    Done,
    /// A chunk, or something unreadable where a chunk should be.
    Payload(ItemView),
}

/// The payload of a `data:` line.
pub open spec fn payload(line: Seq<char>) -> Seq<char> {
    trim_start(line.skip("data:"@.len() as int))
}

/// What the text of a line says, trailing white space removed: a `data:` line with a payload says
/// what the payload says; a comment, an event name, a blank line, a field of another name and a
/// `data:` line without payload say nothing.
pub open spec fn trimmed_line_says(line: Seq<char>) -> LineView {
    if !begins(line, "data:"@) || payload(line).len() == 0 {
        LineView::Ignored
    } else if payload(line) == "[DONE]"@ {
        LineView::Done
    } else {
        match chunk_in(payload(line)) {
            Ok(d) => LineView::Payload(Ok(d)),
            Err(e) => LineView::Payload(Err(ProviderErrorView::Decode(e))),
        }
    }
}

/// What the bytes of a line say.
pub open spec fn line_says(raw: Seq<u8>) -> LineView {
    trimmed_line_says(trim_end(lossy(raw)))
}

/// The state of a decoder.
#[verifier::ext_equal]
pub struct Decoding {
    /// The bytes of a line whose end has not come.
    pub line: Seq<u8>,
    /// What is ready to be handed out.
    pub ready: Seq<ItemView>,
    /// Whether nothing more is taken.
    pub closed: bool,
}

/// The state before the first byte.
pub open spec fn fresh() -> Decoding {
    Decoding { line: Seq::empty(), ready: Seq::empty(), closed: false }
}

/// The state after a complete line.
pub open spec fn take_line(s: Decoding, raw: Seq<u8>) -> Decoding {
    match line_says(raw) {
        LineView::Ignored => s,
        LineView::Done => Decoding { closed: true, ..s },
        LineView::Payload(Ok(d)) => Decoding { ready: s.ready.push(Ok(d)), ..s },
        LineView::Payload(Err(e)) => Decoding { ready: s.ready.push(Err(e)), closed: true, ..s },
    }
}

/// A line without the carriage return before its end.
pub open spec fn without_return(line: Seq<u8>) -> Seq<u8> {
    if line.len() > 0 && line.last() == 13 {
        line.drop_last()
    } else {
        line
    }
}

/// The state after one more byte.
pub open spec fn take_byte(s: Decoding, b: u8) -> Decoding {
    if s.closed {
        s
    } else if b == 10 {
        take_line(Decoding { line: Seq::empty(), ..s }, without_return(s.line))
    } else {
        Decoding { line: s.line.push(b), ..s }
    }
}

/// The state after more bytes.
pub open spec fn take_bytes(s: Decoding, bytes: Seq<u8>) -> Decoding
    decreases bytes.len(),
{
    if bytes.len() == 0 {
        s
    } else {
        take_byte(take_bytes(s, bytes.drop_last()), bytes.last())
    }
}

/// The error of an answer that broke off.
pub open spec fn cut_short() -> ProviderErrorView {
    ProviderErrorView::StreamReset("byte stream ended before `[DONE]` sentinel"@)
}

/// The state after the last byte: a last line without end is taken too, and an answer that was not
/// completed is reported.
pub open spec fn take_end(s: Decoding) -> Decoding {
    if s.closed {
        s
    } else {
        let last = Decoding { line: Seq::empty(), ..s };
        let t = if s.line.len() == 0 {
            last
        } else {
            take_line(last, s.line)
        };
        if t.closed {
            t
        } else {
            Decoding { ready: t.ready.push(Err(cut_short())), closed: true, ..t }
        }
    }
}

/// The state after the connection failed.
pub open spec fn take_failure(s: Decoding, message: Seq<char>) -> Decoding {
    if s.closed {
        s
    } else {
        Decoding {
            ready: s.ready.push(Err(ProviderErrorView::Transport(message))),
            closed: true,
            ..s
        }
    }
}

/// The state after the first item was handed out.
pub open spec fn hand_out(s: Decoding) -> Decoding {
    Decoding { ready: s.ready.drop_first(), ..s }
}

/// What a decoder always keeps: an error is the last item, and nothing more is taken after it.
pub open spec fn sound(s: Decoding) -> bool {
    forall|i: int|
        0 <= i < s.ready.len() && (#[trigger] s.ready[i]) is Err ==> s.closed && i
            == s.ready.len() - 1
}

/// What a decoder has to say when it is asked.
#[derive(Debug)]
pub enum Step {
    /// The next item.
    Item(Item),
    /// That it needs more bytes.
    NeedBytes,
    /// That there is nothing more.
    Finished,
}

/// A decoder of one answer.
#[derive(Debug)]
pub struct Decoder {
    line: Vec<u8>,
    ready: Vec<Item>,
    closed: bool,
}

spec fn ready_view(ready: Seq<Item>) -> Seq<ItemView> {
    Seq::new(ready.len(), |i: int| item_view(ready[i]))
}

impl View for Decoder {
    type V = Decoding;

    closed spec fn view(&self) -> Decoding {
        Decoding { line: self.line@, ready: ready_view(self.ready@), closed: self.closed }
    }
}

impl Decoder {
    /// A decoder before the first byte.
    pub fn new() -> (d: Decoder)
        ensures
            d@ == fresh(),
    {
        let d = Decoder { line: Vec::new(), ready: Vec::new(), closed: false };
        assert(d@ =~= fresh());
        d
    }

    fn push_item(&mut self, item: Item)
        ensures
            final(self)@ == (Decoding {
                ready: old(self)@.ready.push(item_view(item)),
                ..old(self)@
            }),
    {
        let ghost before = ready_view(self.ready@);
        self.ready.push(item);
        assert(ready_view(self.ready@) =~= before.push(item_view(item)));
    }

    fn process_line(&mut self, raw: &[u8])
        ensures
            final(self)@ == take_line(old(self)@, raw@),
    {
        let text = lossy_text(raw);
        let all = chars_of(text.as_str());
        let end = trim_end_at(all.as_slice(), 0, all.len());
        let line = string_of_range(all.as_slice(), 0, end);
        proof {
            assert(all@.subrange(0, all@.len() as int) =~= all@);
            assert(line@ == trim_end(lossy(raw@)));
        }
        let chars = chars_of(line.as_str());
        let tag = chars_of("data:");
        if !stands_at(chars.as_slice(), tag.as_slice(), 0) {
            return;
        }
        let start = trim_start_at(chars.as_slice(), tag.len(), chars.len());
        proof {
            assert(chars@.subrange(tag@.len() as int, chars@.len() as int) =~= line@.skip(
                "data:"@.len() as int,
            ));
        }
        let body = string_of_range(chars.as_slice(), start, chars.len());
        assert(body@ == payload(line@));
        if start == chars.len() {
            return;
        }
        if same_text(body.as_str(), DONE_SENTINEL) {
            self.closed = true;
            return;
        }
        match parse_chunk(body.as_str()) {
            Ok(d) => {
                self.push_item(Ok(d));
            },
            Err(e) => {
                self.push_item(Err(ProviderError::Decode(e)));
                self.closed = true;
            },
        }
    }

    fn feed_byte(&mut self, b: u8)
        ensures
            final(self)@ == take_byte(old(self)@, b),
    {
        if self.closed {
            return;
        }
        if b == 10 {
            let mut line: Vec<u8> = Vec::new();
            std::mem::swap(&mut line, &mut self.line);
            let ghost whole = line@;
            if line.len() > 0 && line[line.len() - 1] == 13 {
                line.pop();
            }
            assert(line@ =~= without_return(whole));
            self.process_line(line.as_slice());
        } else {
            self.line.push(b);
        }
    }

    /// Takes the next bytes.
    pub fn feed(&mut self, bytes: &[u8])
        ensures
            final(self)@ == take_bytes(old(self)@, bytes@),
    {
        let ghost start = self@;
        let mut i: usize = 0;
        assert(bytes@.take(0) =~= Seq::empty());
        while i < bytes.len()
            invariant
                i <= bytes@.len(),
                self@ == take_bytes(start, bytes@.take(i as int)),
            decreases bytes@.len() - i,
        {
            proof {
                assert(bytes@.take(i + 1).drop_last() =~= bytes@.take(i as int));
            }
            self.feed_byte(bytes[i]);
            i += 1;
        }
        assert(bytes@.take(i as int) =~= bytes@);
    }

    /// Takes note that no more bytes come.
    pub fn end(&mut self)
        ensures
            final(self)@ == take_end(old(self)@),
    {
        if self.closed {
            return;
        }
        let ghost start = self@;
        if self.line.len() > 0 {
            let mut line: Vec<u8> = Vec::new();
            std::mem::swap(&mut line, &mut self.line);
            self.process_line(line.as_slice());
        } else {
            assert(self@ =~= (Decoding { line: Seq::empty(), ..start }));
        }
        if !self.closed {
            self.push_item(
                Err(
                    ProviderError::StreamReset(
                        "byte stream ended before `[DONE]` sentinel".to_owned(),
                    ),
                ),
            );
            self.closed = true;
        }
    }

    /// Takes note that the connection failed.
    pub fn fail(&mut self, message: String)
        ensures
            final(self)@ == take_failure(old(self)@, message@),
    {
        if self.closed {
            return;
        }
        self.push_item(Err(ProviderError::Transport(message)));
        self.closed = true;
    }

    /// Hands out the next item.
    pub fn next_item(&mut self) -> (r: Step)
        ensures
            match r {
                Step::Item(item) => old(self)@.ready.len() > 0 && item_view(item)
                    == old(self)@.ready[0] && final(self)@ == hand_out(old(self)@),
                Step::NeedBytes => old(self)@.ready.len() == 0 && !old(self)@.closed && final(self)@
                    == old(self)@,
                Step::Finished => old(self)@.ready.len() == 0 && old(self)@.closed && final(self)@
                    == old(self)@,
            },
    {
        if self.ready.len() > 0 {
            let ghost before = ready_view(self.ready@);
            let item = self.ready.remove(0);
            assert(ready_view(self.ready@) =~= before.drop_first());
            Step::Item(item)
        } else if self.closed {
            Step::Finished
        } else {
            Step::NeedBytes
        }
    }
}

/// How the bytes are cut into pieces makes no difference: taking two pieces one after the other is
/// taking them joined.
pub proof fn pieces_do_not_matter(s: Decoding, a: Seq<u8>, b: Seq<u8>)
    ensures
        take_bytes(take_bytes(s, a), b) == take_bytes(s, a + b),
    decreases b.len(),
{
    if b.len() == 0 {
        assert(a + b =~= a);
    } else {
        pieces_do_not_matter(s, a, b.drop_last());
        assert((a + b).drop_last() =~= a + b.drop_last());
        assert((a + b).last() == b.last());
    }
}

/// Once an answer is complete, or has failed, nothing that comes is taken.
pub proof fn nothing_after_the_end(s: Decoding, bytes: Seq<u8>, message: Seq<char>)
    requires
        s.closed,
    ensures
        take_bytes(s, bytes) == s,
        take_end(s) == s,
        take_failure(s, message) == s,
    decreases bytes.len(),
{
    if bytes.len() > 0 {
        nothing_after_the_end(s, bytes.drop_last(), message);
    }
}

/// An answer that ends without the sentinel is reported: after the end, the last item is an error,
/// unless the answer was closed before or its last line is the sentinel.
pub proof fn a_cut_answer_is_reported(s: Decoding)
    requires
        !s.closed,
        !(s.line.len() > 0 && line_says(s.line) is Done),
    ensures
        take_end(s).closed,
        take_end(s).ready.len() > 0,
        take_end(s).ready.last() is Err,
        !(s.line.len() > 0 && line_says(s.line) matches LineView::Payload(Err(_)))
            ==> take_end(s).ready.last() == Err::<StreamDeltaView, ProviderErrorView>(cut_short()),
{
}

/// An answer that ends with the sentinel, with or without a line end behind it, is not reported: no
/// item is added.
pub proof fn a_complete_answer_is_not_reported(s: Decoding)
    requires
        !s.closed,
        s.line.len() > 0,
        line_says(s.line) is Done,
    ensures
        take_end(s).closed,
        take_end(s).ready == s.ready,
{
}

proof fn lemma_sound_byte(s: Decoding, b: u8)
    requires
        sound(s),
    ensures
        sound(take_byte(s, b)),
{
    let t = take_byte(s, b);
    assert forall|i: int| 0 <= i < t.ready.len() && (#[trigger] t.ready[i]) is Err implies t.closed
        && i == t.ready.len() - 1 by {
        if i < s.ready.len() {
            assert(t.ready[i] == s.ready[i]);
        }
    }
}

/// An error is always the last item: whatever comes, nothing is handed out after one.
pub proof fn an_error_is_last(s: Decoding, bytes: Seq<u8>, message: Seq<char>)
    requires
        sound(s),
    ensures
        sound(fresh()),
        sound(take_bytes(s, bytes)),
        sound(take_end(s)),
        sound(take_failure(s, message)),
        s.ready.len() > 0 ==> sound(hand_out(s)),
    decreases bytes.len(),
{
    if bytes.len() > 0 {
        an_error_is_last(s, bytes.drop_last(), message);
        lemma_sound_byte(take_bytes(s, bytes.drop_last()), bytes.last());
    }
    let e = take_end(s);
    assert forall|i: int| 0 <= i < e.ready.len() && (#[trigger] e.ready[i]) is Err implies e.closed
        && i == e.ready.len() - 1 by {
        if i < s.ready.len() {
            assert(e.ready[i] == s.ready[i]);
        }
    }
    let f = take_failure(s, message);
    assert forall|i: int| 0 <= i < f.ready.len() && (#[trigger] f.ready[i]) is Err implies f.closed
        && i == f.ready.len() - 1 by {
        if i < s.ready.len() {
            assert(f.ready[i] == s.ready[i]);
        }
    }
    if s.ready.len() > 0 {
        let h = hand_out(s);
        assert forall|i: int| 0 <= i < h.ready.len() && (#[trigger] h.ready[i]) is Err implies
            h.closed && i == h.ready.len() - 1 by {
            assert(h.ready[i] == s.ready[i + 1]);
        }
    }
}

/// When an item is handed out makes no difference to what the following bytes do.
pub proof fn taking_early_is_taking_late(s: Decoding, bytes: Seq<u8>)
    requires
        s.ready.len() > 0,
    ensures
        take_bytes(s, bytes).ready.len() > 0,
        take_bytes(s, bytes).ready[0] == s.ready[0],
        take_bytes(hand_out(s), bytes) == hand_out(take_bytes(s, bytes)),
    decreases bytes.len(),
{
    if bytes.len() > 0 {
        taking_early_is_taking_late(s, bytes.drop_last());
        let t = take_bytes(s, bytes.drop_last());
        let u = take_byte(t, bytes.last());
        assert(take_byte(hand_out(t), bytes.last()) =~= hand_out(u));
    }
}

/// What a whole line of an answer does to a decoder that still listens: a `data:` line that holds
/// something adds the chunk it encodes, in its place behind those before it; one that holds the mark of
/// the end closes the answer; one that is not readable adds the error and closes it; any other line does
/// nothing. A return before the end of the line does not count, nor does white space around the chunk.
pub proof fn a_line_does_what_it_says(s: Decoding, line: Seq<u8>)
    requires
        !s.closed,
        s.line.len() == 0,
        forall|i: int| 0 <= i < line.len() ==> #[trigger] line[i] != 10,
    ensures
        ({
            let raw = if line.len() > 0 && line.last() == 13 {
                line.drop_last()
            } else {
                line
            };
            let text = trim_end(lossy(raw));
            let held = trim_start(text.skip(5));
            let after = take_bytes(s, line.push(10));
            let speaks = begins(text, "data:"@) && held.len() > 0;
            &&& after.line.len() == 0
            &&& !speaks ==> after.ready == s.ready && !after.closed
            &&& speaks && held == "[DONE]"@ ==> after.ready == s.ready && after.closed
            &&& speaks && held != "[DONE]"@ ==> match chunk_in(held) {
                Ok(d) => after.ready == s.ready.push(Ok(d)) && !after.closed,
                Err(e) => after.ready == s.ready.push(Err(ProviderErrorView::Decode(e)))
                    && after.closed,
            }
        }),
{
    reveal_strlit("data:");
    assert("data:"@.len() == 5);
    lemma_line_is_gathered(s, line);
    assert(line.push(10).drop_last() =~= line);
}

proof fn lemma_line_is_gathered(s: Decoding, line: Seq<u8>)
    requires
        !s.closed,
        s.line.len() == 0,
        forall|i: int| 0 <= i < line.len() ==> #[trigger] line[i] != 10,
    ensures
        take_bytes(s, line) == (Decoding { line, ..s }),
    decreases line.len(),
{
    if line.len() > 0 {
        let before = line.drop_last();
        assert forall|i: int| 0 <= i < before.len() implies #[trigger] before[i] != 10 by {
            assert(line[i] != 10);
        }
        lemma_line_is_gathered(s, before);
        assert(line[line.len() - 1] != 10);
        assert(before.push(line.last()) =~= line);
    } else {
        assert(s.line =~= line);
    }
}

/// What is ready is handed out in the order in which it came, and nothing else changes.
pub proof fn items_are_handed_out_in_order(s: Decoding)
    requires
        s.ready.len() > 0,
    ensures
        seq![s.ready[0]] + hand_out(s).ready == s.ready,
        hand_out(s).line == s.line,
        hand_out(s).closed == s.closed,
{
    assert(seq![s.ready[0]] + hand_out(s).ready =~= s.ready);
}

/// Where the bytes fail, the failure is what comes last, behind everything that was read before it.
pub proof fn a_failure_comes_last(s: Decoding, message: Seq<char>)
    requires
        !s.closed,
    ensures
        take_failure(s, message).ready == s.ready.push(Err(ProviderErrorView::Transport(message))),
        take_failure(s, message).closed,
{
}

/// A last line without an end is still read when the bytes end: what it holds is handed out before it is
/// told that the answer was cut short.
pub proof fn an_unfinished_line_is_read(s: Decoding)
    requires
        !s.closed,
        s.line.len() > 0,
    ensures
        ({
            let text = trim_end(lossy(s.line));
            let held = trim_start(text.skip(5));
            let speaks = begins(text, "data:"@) && held.len() > 0;
            let cut = Err::<StreamDeltaView, ProviderErrorView>(cut_short());
            &&& take_end(s).closed
            &&& !speaks ==> take_end(s).ready == s.ready.push(cut)
            &&& speaks && held == "[DONE]"@ ==> take_end(s).ready == s.ready
            &&& speaks && held != "[DONE]"@ ==> match chunk_in(held) {
                Ok(d) => take_end(s).ready == s.ready.push(Ok(d)).push(cut),
                Err(e) => take_end(s).ready == s.ready.push(Err(ProviderErrorView::Decode(e))),
            }
        }),
        cut_short() is StreamReset,
{
    reveal_strlit("data:");
    assert("data:"@.len() == 5);
}

} // verus!
