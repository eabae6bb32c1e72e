//! The lines of a streamed response: server-sent events, or one JSON object
//! per line.

use crate::outside;
use crate::text;
use vstd::prelude::*;

verus! {

/// How a stream is cut into payloads.
#[derive(Debug, Clone, Copy, PartialEq, Eq, Structural)]
pub enum Framing {
    /// Server-sent events: payloads stand on `data: ` lines, and
    /// `data: [DONE]` ends the stream.
    Events,
    /// One payload per line.
    Lines,
}

/// What stands next in a stream.
#[derive(Debug, PartialEq)]
pub enum Step {
    /// Nothing that is complete: the next chunk has to come first.
    Wait,
    /// The sentinel that ends the stream.
    End,
    /// A payload.
    Payload(String),
}

/// What stands next in a stream.
pub enum StepView {
    Wait,
    End,
    Payload(Seq<char>),
}

impl View for Step {
    type V = StepView;

    open spec fn view(&self) -> StepView {
        match self {
            Step::Wait => StepView::Wait,
            Step::End => StepView::End,
            Step::Payload(text) => StepView::Payload(text@),
        }
    }
}

/// What a line, without white space around it, means. `None` where it is to be
/// skipped.
pub open spec fn line_step(framing: Framing, line: Seq<char>) -> Option<StepView> {
    if line.len() == 0 {
        None
    } else if framing == Framing::Lines {
        Some(StepView::Payload(line))
    } else if line == "data: [DONE]"@ {
        Some(StepView::End)
    } else if text::has_prefix(line, "data: "@) {
        Some(StepView::Payload(line.skip("data: "@.len() as int)))
    } else {
        None
    }
}

/// What stands next in `buffer`, and what is left of it after that.
pub open spec fn next_step(framing: Framing, buffer: Seq<char>) -> (StepView, Seq<char>)
    decreases buffer.len(),
    via next_step_decreases
{
    let n = text::until(buffer, text::feed()) as int;
    if n >= buffer.len() {
        (StepView::Wait, buffer)
    } else {
        let rest = buffer.skip(n + 1);
        match line_step(framing, text::trimmed(buffer.take(n))) {
            Some(step) => (step, rest),
            None => next_step(framing, rest),
        }
    }
}

#[via_fn]
proof fn next_step_decreases(framing: Framing, buffer: Seq<char>) {
    text::lemma_until_bounds(buffer, text::feed());
}

/// A stream's text that has arrived and was not consumed yet.
pub struct LineBuffer {
    framing: Framing,
    text: String,
}

impl LineBuffer {
    /// How the stream is cut.
    pub closed spec fn framing(&self) -> Framing {
        self.framing
    }

    /// What was not consumed yet.
    pub closed spec fn pending(&self) -> Seq<char> {
        self.text@
    }

    pub fn new(framing: Framing) -> (buffer: LineBuffer)
        ensures
            buffer.framing() == framing,
            buffer.pending() == Seq::<char>::empty(),
    {
        LineBuffer { framing, text: String::new() }
    }

    /// Takes in a chunk of the body, decoding it as UTF-8 on its own.
    pub fn feed(&mut self, chunk: &Vec<u8>)
        ensures
            final(self).framing() == old(self).framing(),
            final(self).pending() == old(self).pending() + outside::utf8_lossy(chunk@),
            vstd::utf8::valid_utf8(chunk@) ==> final(self).pending() == old(self).pending()
                + vstd::utf8::decode_utf8(chunk@),
    {
        let decoded = outside::decode_lossy(chunk);
        self.text.append(decoded.as_str());
    }

    /// Consumes what stands next.
    pub fn next(&mut self) -> (step: Step)
        ensures
            final(self).framing() == old(self).framing(),
            (step@, final(self).pending()) == next_step(old(self).framing(), old(self).pending()),
    {
        let chars = text::chars_of(self.text.as_str());
        let ghost whole = self.text@;
        let mut at: usize = 0;
        assert(whole.skip(0) =~= whole);
        loop
            invariant
                at <= chars.len(),
                chars@ == whole,
                self.framing() == old(self).framing(),
                whole == old(self).pending(),
                next_step(self.framing(), whole) == next_step(
                    self.framing(),
                    whole.skip(at as int),
                ),
            decreases chars.len() - at,
        {
            let mut end: usize = at;
            while end < chars.len() && chars[end] != '\n'
                invariant
                    at <= end <= chars.len(),
                    forall|i: int| at <= i < end ==> chars@[i] != '\n',
                decreases chars.len() - end,
            {
                end = end + 1;
            }
            proof {
                let rest = whole.skip(at as int);
                assert forall|i: int| 0 <= i < end - at implies !text::feed().contains(rest[i]) by {
                    assert(rest[i] == chars@[at + i]);
                }
                text::lemma_until(rest, text::feed(), end - at);
            }
            if end == chars.len() {
                self.text = text::string_of(&chars, at, end);
                assert(self.text@ =~= whole.skip(at as int));
                return Step::Wait;
            }
            let line = text::trim(text::string_of(&chars, at, end).as_str());
            proof {
                let rest = whole.skip(at as int);
                assert(rest.take(end - at) =~= whole.subrange(at as int, end as int));
                assert(rest.skip(end - at + 1) =~= whole.skip(end + 1));
            }
            let step = LineBuffer::read(self.framing, line);
            match step {
                Some(step) => {
                    self.text = text::string_of(&chars, end + 1, chars.len());
                    assert(self.text@ =~= whole.skip(end + 1));
                    return step;
                },
                None => {
                    at = end + 1;
                },
            }
        }
    }

    fn read(framing: Framing, line: String) -> (step: Option<Step>)
        ensures
            match step {
                Some(step) => line_step(framing, line@) == Some(step@),
                None => line_step(framing, line@) is None,
            },
    {
        if line.as_str().is_empty() {
            None
        } else if framing == Framing::Lines {
            Some(Step::Payload(line))
        } else if text::same_text(line.as_str(), "data: [DONE]") {
            Some(Step::End)
        } else {
            match text::strip_prefix(line.as_str(), "data: ") {
                Some(payload) => Some(Step::Payload(payload)),
                None => None,
            }
        }
    }
}

/// Everything that is complete in `buffer`, in order, and what is left of it
/// after that.
pub open spec fn all_steps(framing: Framing, buffer: Seq<char>) -> (Seq<StepView>, Seq<char>)
    decreases buffer.len(),
    via all_steps_decreases
{
    let n = text::until(buffer, text::feed()) as int;
    if n >= buffer.len() {
        (Seq::empty(), buffer)
    } else {
        let (later, left) = all_steps(framing, buffer.skip(n + 1));
        match line_step(framing, text::trimmed(buffer.take(n))) {
            Some(step) => (seq![step] + later, left),
            None => (later, left),
        }
    }
}

#[via_fn]
proof fn all_steps_decreases(framing: Framing, buffer: Seq<char>) {
    text::lemma_until_bounds(buffer, text::feed());
}

/// Consuming a buffer step by step, until it has to wait, yields everything
/// that is complete in it.
pub proof fn lemma_step_by_step(framing: Framing, buffer: Seq<char>)
    ensures
        ({
            let (step, rest) = next_step(framing, buffer);
            if step is Wait {
                all_steps(framing, buffer) == (Seq::<StepView>::empty(), rest)
            } else {
                let (later, left) = all_steps(framing, rest);
                all_steps(framing, buffer) == (seq![step] + later, left)
            }
        }),
    decreases buffer.len(),
{
    text::lemma_until_bounds(buffer, text::feed());
    let n = text::until(buffer, text::feed()) as int;
    if n < buffer.len() && line_step(framing, text::trimmed(buffer.take(n))) is None {
        lemma_step_by_step(framing, buffer.skip(n + 1));
    }
}

/// What a stream's text yields does not depend on where it is cut into chunks.
pub proof fn lemma_chunks_do_not_matter(framing: Framing, first: Seq<char>, second: Seq<char>)
    ensures
        ({
            let (early, left) = all_steps(framing, first);
            let (late, rest) = all_steps(framing, left + second);
            all_steps(framing, first + second) == (early + late, rest)
        }),
    decreases first.len(),
{
    text::lemma_until_bounds(first, text::feed());
    let whole = first + second;
    let n = text::until(first, text::feed()) as int;
    let (early, left) = all_steps(framing, first);
    let (late, rest) = all_steps(framing, left + second);
    if n >= first.len() {
        assert(early + late =~= late);
    } else {
        assert forall|i: int| 0 <= i < n implies !text::feed().contains(whole[i]) by {
            assert(whole[i] == first[i]);
        }
        text::lemma_until(whole, text::feed(), n);
        assert(whole.take(n) =~= first.take(n));
        assert(whole.skip(n + 1) =~= first.skip(n + 1) + second);
        lemma_chunks_do_not_matter(framing, first.skip(n + 1), second);
        let (mid, _) = all_steps(framing, first.skip(n + 1));
        match line_step(framing, text::trimmed(first.take(n))) {
            Some(step) => {
                assert(seq![step] + (mid + late) =~= (seq![step] + mid) + late);
            },
            None => {},
        }
    }
}

/// A line that is complete yields what it means and leaves nothing behind.
pub proof fn lemma_a_line_is_read(framing: Framing, line: Seq<char>)
    requires
        forall|i: int| 0 <= i < line.len() ==> #[trigger] line[i] != '\n',
    ensures
        all_steps(framing, line + "\n"@) == (
            match line_step(framing, text::trimmed(line)) {
                Some(step) => seq![step],
                None => Seq::<StepView>::empty(),
            },
            Seq::<char>::empty(),
        ),
{
    reveal_strlit("\n");
    let n = line.len() as int;
    let whole = line + "\n"@;
    text::lemma_until(whole, text::feed(), n);
    assert(whole.take(n) =~= line);
    assert(whole.skip(n + 1) =~= Seq::<char>::empty());
    assert(text::until(Seq::<char>::empty(), text::feed()) == 0);
    assert(all_steps(framing, Seq::<char>::empty()) == (
        Seq::<StepView>::empty(),
        Seq::<char>::empty(),
    ));
    match line_step(framing, text::trimmed(line)) {
        Some(step) => {
            assert(seq![step] + Seq::<StepView>::empty() =~= seq![step]);
        },
        None => {},
    }
}

proof fn lemma_first_line(line: Seq<char>, rest: Seq<char>)
    requires
        forall|i: int| 0 <= i < line.len() ==> #[trigger] line[i] != '\n',
    ensures
        ({
            let whole = line + seq!['\n'] + rest;
            let n = text::until(whole, text::feed()) as int;
            n == line.len() && whole.take(n) == line && whole.skip(n + 1) == rest
        }),
{
    let whole = line + seq!['\n'] + rest;
    let n = line.len() as int;
    assert forall|i: int| 0 <= i < n implies !text::feed().contains(#[trigger] whole[i]) by {
        assert(whole[i] == line[i]);
    }
    assert(whole[n] == '\n');
    text::lemma_until(whole, text::feed(), n);
    assert(whole.take(n) =~= line);
    assert(whole.skip(n + 1) =~= rest);
}

/// Of a stream of JSON lines every line that is not blank is a payload, without
/// the white space around it. A line that is not complete has to wait.
pub proof fn lemma_every_line_is_a_payload(line: Seq<char>, rest: Seq<char>)
    requires
        forall|i: int| 0 <= i < line.len() ==> #[trigger] line[i] != '\n',
    ensures
        next_step(Framing::Lines, line + seq!['\n'] + rest) == if text::blank(line) {
            next_step(Framing::Lines, rest)
        } else {
            (StepView::Payload(text::trimmed(line)), rest)
        },
        next_step(Framing::Lines, line) == (StepView::Wait, line),
        next_step(Framing::Events, line) == (StepView::Wait, line),
{
    lemma_first_line(line, rest);
    text::lemma_trimmed_empty(line);
    assert forall|i: int| 0 <= i < line.len() implies !text::feed().contains(
        #[trigger] line[i],
    ) by {}
    text::lemma_until(line, text::feed(), line.len() as int);
}

/// Of a stream of events every `data: ` line is a payload, as it stands behind
/// that, except for the sentinel, which ends the stream; every other line is
/// passed over.
pub proof fn lemma_every_data_line_is_a_payload(payload: Seq<char>, line: Seq<char>, rest: Seq<char>)
    requires
        forall|i: int| 0 <= i < payload.len() ==> #[trigger] payload[i] != '\n',
        payload.len() > 0,
        !text::is_white(payload.last()),
        forall|i: int| 0 <= i < line.len() ==> #[trigger] line[i] != '\n',
        !text::has_prefix(text::trimmed(line), "data: "@),
    ensures
        next_step(Framing::Events, "data: "@ + payload + seq!['\n'] + rest) == if payload
            == "[DONE]"@ {
            (StepView::End, rest)
        } else {
            (StepView::Payload(payload), rest)
        },
        next_step(Framing::Events, line + seq!['\n'] + rest) == next_step(Framing::Events, rest),
{
    reveal_strlit("data: ");
    reveal_strlit("[DONE]");
    reveal_strlit("data: [DONE]");
    let full = "data: "@ + payload;
    assert forall|i: int| 0 <= i < full.len() implies #[trigger] full[i] != '\n' by {
        if i >= 6 {
            assert(full[i] == payload[i - 6]);
        }
    }
    lemma_first_line(full, rest);
    assert(full.last() == payload.last());
    text::lemma_trimmed_solid(full);
    assert(full.skip(6) =~= payload);
    assert(full.take(6) =~= "data: "@);
    assert("data: [DONE]"@ =~= "data: "@ + "[DONE]"@);
    if full == "data: [DONE]"@ {
        assert("data: [DONE]"@.skip(6) =~= "[DONE]"@);
    }
    lemma_first_line(line, rest);
    let bare = text::trimmed(line);
    if bare == "data: [DONE]"@ {
        assert(bare.take(6) =~= "data: "@);
    }
}

} // verus!
