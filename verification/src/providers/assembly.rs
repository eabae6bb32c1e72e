//! How the frames of a streamed answer, in the OpenAI shape, add up to a
//! completion, and which increments they bring.

use crate::providers::chat_api;
use crate::providers::error;
use crate::providers::error::ProviderError;
use crate::providers::framing;
use crate::providers::framing::Framing;
use crate::providers::framing::LineBuffer;
use crate::providers::framing::Step;
use crate::providers::types;
use crate::providers::types::CompletionResponse;
use crate::providers::types::CompletionView;
use crate::providers::types::DeltaView;
use crate::providers::types::StreamDelta;
use crate::providers::types::ToolCall;
use crate::providers::types::ToolCallFunction;
use crate::providers::types::ToolCallView;
use crate::text;
use vstd::prelude::*;

verus! {

/// Which of the OpenAI-shaped providers a stream comes from.
#[derive(Debug, Clone, Copy, PartialEq, Eq, Structural)]
pub enum Dialect {
    /// Names the upstream and the generation, and always says something.
    OpenRouter,
    /// May put its text in `reasoning_content`.
    Compatible,
}

#[derive(Debug, PartialEq)]
pub struct StreamingFunction {
    pub name: Option<String>,
    pub arguments: Option<String>,
}

#[derive(Debug, PartialEq)]
pub struct StreamingToolCall {
    pub index: usize,
    pub id: Option<String>,
    pub call_type: Option<String>,
    pub function: Option<StreamingFunction>,
}

#[derive(Debug, PartialEq)]
pub struct StreamingDelta {
    pub content: Option<String>,
    pub reasoning_content: Option<String>,
    pub tool_calls: Option<Vec<StreamingToolCall>>,
}

#[derive(Debug, PartialEq)]
pub struct StreamingChoice {
    pub delta: StreamingDelta,
    pub finish_reason: Option<String>,
    pub native_finish_reason: Option<String>,
}

/// One frame of a stream.
#[derive(Debug, PartialEq)]
pub struct StreamingResponse {
    pub choices: Vec<StreamingChoice>,
    pub provider: Option<String>,
    pub id: Option<String>,
}

/// A tool call that is being put together.
#[derive(Debug, PartialEq)]
pub struct ToolCallAccumulator {
    pub id: String,
    pub call_type: String,
    pub name: String,
    pub arguments: String,
    /// Whether the start of the call has been reported.
    pub announced: bool,
}

/// A tool call as far as it is put together.
pub struct PartialCall {
    pub id: Seq<char>,
    pub call_type: Seq<char>,
    pub name: Seq<char>,
    pub arguments: Seq<char>,
    /// Whether the start of the call has been reported.
    pub announced: bool,
}

impl View for ToolCallAccumulator {
    type V = PartialCall;

    open spec fn view(&self) -> PartialCall {
        PartialCall {
            id: self.id@,
            call_type: self.call_type@,
            name: self.name@,
            arguments: self.arguments@,
            announced: self.announced,
        }
    }
}

/// The views of a list of tool calls that are being put together.
pub open spec fn partials(calls: Seq<ToolCallAccumulator>) -> Seq<PartialCall> {
    Seq::new(calls.len(), |i: int| calls[i]@)
}

/// A tool call of which nothing is known.
pub open spec fn blank_call() -> PartialCall {
    PartialCall {
        id: Seq::empty(),
        call_type: Seq::empty(),
        name: Seq::empty(),
        arguments: Seq::empty(),
        announced: false,
    }
}

/// `calls` with blank ones behind them, as many as the position `index` needs.
pub open spec fn reaching(calls: Seq<PartialCall>, index: int) -> Seq<PartialCall> {
    if index < calls.len() {
        calls
    } else {
        calls + Seq::new((index + 1 - calls.len()) as nat, |i: int| blank_call())
    }
}

impl StreamingToolCall {
    /// The name that this piece of a call brings.
    pub open spec fn given_name(&self) -> Option<Seq<char>> {
        match self.function {
            Some(function) => text::optional(function.name),
            None => None,
        }
    }

    /// The arguments that this piece of a call brings.
    pub open spec fn given_arguments(&self) -> Option<Seq<char>> {
        match self.function {
            Some(function) => text::optional(function.arguments),
            None => None,
        }
    }
}

/// The id of a call once `piece` has been added: the latest one.
pub open spec fn id_with(call: PartialCall, piece: StreamingToolCall) -> Seq<char> {
    match piece.id {
        Some(id) => id@,
        None => call.id,
    }
}

/// The name of a call once `piece` has been added: the first one that is not
/// empty.
pub open spec fn name_with(call: PartialCall, piece: StreamingToolCall) -> Seq<char> {
    match piece.given_name() {
        Some(name) => if call.name.len() == 0 {
            name
        } else {
            call.name
        },
        None => call.name,
    }
}

/// A tool call once `piece` has been added. The first name that is not empty
/// stays, ids and types are replaced, and arguments are appended. The call is
/// announced as soon as it has both an id and a name.
pub open spec fn with_piece(call: PartialCall, piece: StreamingToolCall) -> PartialCall {
    PartialCall {
        id: id_with(call, piece),
        call_type: match piece.call_type {
            Some(call_type) => call_type@,
            None => call.call_type,
        },
        name: name_with(call, piece),
        arguments: call.arguments + types::or_empty(piece.given_arguments()),
        announced: call.announced || (id_with(call, piece).len() > 0 && name_with(
            call,
            piece,
        ).len() > 0),
    }
}

/// The increments that `piece` brings to `call`: its arguments, and the start
/// of the call once both its name and its id are known.
pub open spec fn piece_deltas(call: PartialCall, piece: StreamingToolCall) -> Seq<DeltaView> {
    let next = with_piece(call, piece);
    let arguments = match piece.given_arguments() {
        Some(arguments) => seq![
            DeltaView::ToolCallArguments { index: piece.index, arguments },
        ],
        None => Seq::empty(),
    };
    if next.announced && !call.announced {
        arguments + seq![
            DeltaView::ToolCallStart { index: piece.index, id: next.id, name: next.name },
        ]
    } else {
        arguments
    }
}

/// The tool calls once all `pieces` have been added, in order.
pub open spec fn with_pieces(calls: Seq<PartialCall>, pieces: Seq<StreamingToolCall>) -> Seq<
    PartialCall,
>
    decreases pieces.len(),
{
    if pieces.len() == 0 {
        calls
    } else {
        let before = with_pieces(calls, pieces.drop_last());
        let piece = pieces.last();
        let wide = reaching(before, piece.index as int);
        wide.update(piece.index as int, with_piece(wide[piece.index as int], piece))
    }
}

/// The increments that `pieces` bring, in order.
pub open spec fn pieces_deltas(calls: Seq<PartialCall>, pieces: Seq<StreamingToolCall>) -> Seq<
    DeltaView,
>
    decreases pieces.len(),
{
    if pieces.len() == 0 {
        Seq::empty()
    } else {
        let before = with_pieces(calls, pieces.drop_last());
        let piece = pieces.last();
        let wide = reaching(before, piece.index as int);
        pieces_deltas(calls, pieces.drop_last()) + piece_deltas(wide[piece.index as int], piece)
    }
}

/// The text that a frame shows. OpenRouter's is taken as it stands; of the
/// others an empty one counts as none, and the reasoning steps in.
pub open spec fn shown(dialect: Dialect, delta: StreamingDelta) -> Option<Seq<char>> {
    match dialect {
        Dialect::OpenRouter => text::optional(delta.content),
        Dialect::Compatible => match delta.content {
            Some(content) => if content@.len() > 0 {
                Some(content@)
            } else {
                not_empty(delta.reasoning_content)
            },
            None => not_empty(delta.reasoning_content),
        },
    }
}

/// A text where there is one that is not empty.
pub open spec fn not_empty(value: Option<String>) -> Option<Seq<char>> {
    match value {
        Some(value) => if value@.len() > 0 {
            Some(value@)
        } else {
            None
        },
        None => None,
    }
}

/// The later of two optional texts.
pub open spec fn later(old_value: Option<Seq<char>>, new_value: Option<String>) -> Option<
    Seq<char>,
> {
    match new_value {
        Some(new_value) => Some(new_value@),
        None => old_value,
    }
}

/// What a stream has brought so far.
pub struct Assembled {
    pub content: Seq<char>,
    pub calls: Seq<PartialCall>,
    pub finish_reason: Option<Seq<char>>,
    pub native_finish_reason: Option<Seq<char>>,
    pub upstream_provider: Option<Seq<char>>,
    pub generation_id: Option<Seq<char>>,
    /// Whether a frame has come.
    pub saw_payload: bool,
    /// Whether the sentinel has come.
    pub done: bool,
}

/// The pieces of tool calls that a choice brings.
pub open spec fn pieces_of(choice: StreamingChoice) -> Seq<StreamingToolCall> {
    match choice.delta.tool_calls {
        Some(pieces) => pieces@,
        None => Seq::empty(),
    }
}

/// A tool call as the completion gives it.
pub open spec fn finished_call(call: PartialCall) -> ToolCallView {
    chat_api::full_call(call.id, call.call_type, call.name, call.arguments)
}

/// The tool calls as the completion gives them; no calls are no list.
pub open spec fn finished(calls: Seq<PartialCall>) -> Option<Seq<ToolCallView>> {
    if calls.len() == 0 {
        None
    } else {
        Some(Seq::new(calls.len(), |i: int| finished_call(calls[i])))
    }
}

impl Assembled {
    /// Nothing has come yet.
    pub open spec fn nothing() -> Assembled {
        Assembled {
            content: Seq::empty(),
            calls: Seq::empty(),
            finish_reason: None,
            native_finish_reason: None,
            upstream_provider: None,
            generation_id: None,
            saw_payload: false,
            done: false,
        }
    }

    /// What has come once `frame` has. Of its choices only the first counts.
    pub open spec fn with_frame(self, dialect: Dialect, frame: StreamingResponse) -> Assembled {
        let routed = dialect == Dialect::OpenRouter;
        let named = Assembled {
            upstream_provider: if routed {
                later(self.upstream_provider, frame.provider)
            } else {
                self.upstream_provider
            },
            generation_id: if routed {
                later(self.generation_id, frame.id)
            } else {
                self.generation_id
            },
            saw_payload: true,
            ..self
        };
        if frame.choices@.len() == 0 {
            named
        } else {
            let choice = frame.choices@[0];
            Assembled {
                content: self.content + types::or_empty(shown(dialect, choice.delta)),
                calls: with_pieces(self.calls, pieces_of(choice)),
                finish_reason: later(self.finish_reason, choice.finish_reason),
                native_finish_reason: if routed {
                    later(self.native_finish_reason, choice.native_finish_reason)
                } else {
                    self.native_finish_reason
                },
                ..named
            }
        }
    }

    /// The increments that `frame` brings.
    pub open spec fn frame_deltas(self, dialect: Dialect, frame: StreamingResponse) -> Seq<
        DeltaView,
    > {
        if frame.choices@.len() == 0 {
            Seq::empty()
        } else {
            let choice = frame.choices@[0];
            let content = match shown(dialect, choice.delta) {
                Some(content) => seq![DeltaView::Content(content)],
                None => Seq::empty(),
            };
            content + pieces_deltas(self.calls, pieces_of(choice))
        }
    }

    /// The increment that closes the stream.
    pub open spec fn closing(self) -> DeltaView {
        DeltaView::Done { finish_reason: self.finish_reason }
    }

    /// Whether a stream that ends here has delivered nothing.
    pub open spec fn delivered_nothing(self, dialect: Dialect) -> bool {
        dialect == Dialect::OpenRouter && !self.saw_payload && !self.done
    }

    /// The increments that the end of the stream brings: it is closed here
    /// unless the sentinel has closed it.
    pub open spec fn last_deltas(self) -> Seq<DeltaView> {
        if self.done {
            Seq::empty()
        } else {
            seq![self.closing()]
        }
    }

    /// The completion that a stream which ends here adds up to.
    pub open spec fn completion(self) -> CompletionView {
        CompletionView {
            content: self.content,
            tool_calls: finished(self.calls),
            finish_reason: self.finish_reason,
            native_finish_reason: self.native_finish_reason,
            completion_tokens: None,
            upstream_provider: self.upstream_provider,
            generation_id: self.generation_id,
        }
    }
}

/// What stands next in a stream.
#[derive(Debug, PartialEq)]
pub enum StreamStep {
    /// Nothing that is complete: the next chunk has to come first. A stream
    /// that is closed has nothing more to say.
    Wait,
    /// The sentinel, with the increment that closes the stream. What stands
    /// behind it does not count.
    Closed(StreamDelta),
    /// The JSON of a frame.
    Payload(String),
}

/// A streamed answer on its way.
pub struct ChatStream {
    dialect: Dialect,
    buffer: LineBuffer,
    content: String,
    calls: Vec<ToolCallAccumulator>,
    finish_reason: Option<String>,
    native_finish_reason: Option<String>,
    upstream_provider: Option<String>,
    generation_id: Option<String>,
    saw_payload: bool,
    done: bool,
}

fn blank_accumulator() -> (call: ToolCallAccumulator)
    ensures
        call@ == blank_call(),
{
    ToolCallAccumulator {
        id: String::new(),
        call_type: String::new(),
        name: String::new(),
        arguments: String::new(),
        announced: false,
    }
}

fn shown_text(dialect: Dialect, delta: &StreamingDelta) -> (content: Option<String>)
    ensures
        text::optional(content) == shown(dialect, *delta),
{
    match dialect {
        Dialect::OpenRouter => text::copy_optional(&delta.content),
        Dialect::Compatible => {
            if let Some(content) = &delta.content {
                if !content.as_str().is_empty() {
                    return Some(content.clone());
                }
            }
            match &delta.reasoning_content {
                Some(reasoning) => if reasoning.as_str().is_empty() {
                    None
                } else {
                    Some(reasoning.clone())
                },
                None => None,
            }
        },
    }
}

fn take_later(old_value: &mut Option<String>, new_value: &Option<String>)
    ensures
        text::optional(*final(old_value)) == later(text::optional(*old(old_value)), *new_value),
{
    if let Some(new_value) = new_value {
        *old_value = Some(new_value.clone());
    }
}

impl ChatStream {
    /// What has come so far.
    pub closed spec fn assembled(&self) -> Assembled {
        Assembled {
            content: self.content@,
            calls: partials(self.calls@),
            finish_reason: text::optional(self.finish_reason),
            native_finish_reason: text::optional(self.native_finish_reason),
            upstream_provider: text::optional(self.upstream_provider),
            generation_id: text::optional(self.generation_id),
            saw_payload: self.saw_payload,
            done: self.done,
        }
    }

    /// Which provider the stream comes from.
    pub closed spec fn dialect(&self) -> Dialect {
        self.dialect
    }

    /// The text that has arrived and was not consumed yet.
    pub closed spec fn pending(&self) -> Seq<char> {
        self.buffer.pending()
    }

    /// The stream is cut as server-sent events.
    pub closed spec fn well_formed(&self) -> bool {
        self.buffer.framing() == Framing::Events
    }

    pub fn new(dialect: Dialect) -> (stream: ChatStream)
        ensures
            stream.well_formed(),
            stream.dialect() == dialect,
            stream.pending() == Seq::<char>::empty(),
            stream.assembled() == Assembled::nothing(),
    {
        let stream = ChatStream {
            dialect,
            buffer: LineBuffer::new(Framing::Events),
            content: String::new(),
            calls: Vec::new(),
            finish_reason: None,
            native_finish_reason: None,
            upstream_provider: None,
            generation_id: None,
            saw_payload: false,
            done: false,
        };
        assert(partials(stream.calls@) =~= Seq::empty());
        stream
    }

    /// Takes in a chunk of the body.
    pub fn feed(&mut self, chunk: &Vec<u8>)
        requires
            old(self).well_formed(),
        ensures
            final(self).well_formed(),
            final(self).dialect() == old(self).dialect(),
            final(self).assembled() == old(self).assembled(),
            final(self).pending() == old(self).pending() + crate::outside::utf8_lossy(chunk@),
            vstd::utf8::valid_utf8(chunk@) ==> final(self).pending() == old(self).pending()
                + vstd::utf8::decode_utf8(chunk@),
    {
        self.buffer.feed(chunk);
    }

    /// Consumes what stands next. Behind the sentinel nothing does.
    pub fn next(&mut self) -> (step: StreamStep)
        requires
            old(self).well_formed(),
        ensures
            final(self).well_formed(),
            final(self).dialect() == old(self).dialect(),
            old(self).assembled().done ==> step is Wait && final(self).pending() == old(
                self,
            ).pending() && final(self).assembled() == old(self).assembled(),
            !old(self).assembled().done ==> ({
                let (next, rest) = framing::next_step(Framing::Events, old(self).pending());
                &&& final(self).pending() == rest
                &&& match next {
                    framing::StepView::Wait => step is Wait && final(self).assembled() == old(
                        self,
                    ).assembled(),
                    framing::StepView::Payload(payload) => (step matches StreamStep::Payload(text)
                        && text@ == payload) && final(self).assembled() == old(self).assembled(),
                    framing::StepView::End => (step matches StreamStep::Closed(delta) && seq![
                        delta@,
                    ] == old(self).assembled().event_deltas(
                        old(self).dialect(),
                        StreamEvent::Sentinel,
                    )) && final(self).assembled() == old(self).assembled().with_event(
                        old(self).dialect(),
                        StreamEvent::Sentinel,
                    ),
                }
            }),
    {
        if self.done {
            return StreamStep::Wait;
        }
        match self.buffer.next() {
            Step::Wait => StreamStep::Wait,
            Step::Payload(payload) => StreamStep::Payload(payload),
            Step::End => {
                self.done = true;
                StreamStep::Closed(
                    StreamDelta::Done { finish_reason: text::copy_optional(&self.finish_reason) },
                )
            },
        }
    }

    /// Adds a frame and reports the increments that it brings. A stream that
    /// is closed stays as it is.
    pub fn deliver(&mut self, frame: &StreamingResponse) -> (deltas: Vec<StreamDelta>)
        requires
            old(self).well_formed(),
            frame.choices@.len() > 0 ==> forall|i: int|
                0 <= i < pieces_of(frame.choices@[0]).len() ==> (#[trigger] pieces_of(
                    frame.choices@[0],
                )[i]).index < usize::MAX,
        ensures
            final(self).well_formed(),
            final(self).dialect() == old(self).dialect(),
            final(self).pending() == old(self).pending(),
            final(self).assembled() == old(self).assembled().with_event(
                old(self).dialect(),
                StreamEvent::Frame(*frame),
            ),
            types::deltas_view(deltas@) == old(self).assembled().event_deltas(
                old(self).dialect(),
                StreamEvent::Frame(*frame),
            ),
    {
        if self.done {
            let deltas: Vec<StreamDelta> = Vec::new();
            assert(types::deltas_view(deltas@) =~= Seq::empty());
            return deltas;
        }
        self.saw_payload = true;
        if self.dialect == Dialect::OpenRouter {
            take_later(&mut self.upstream_provider, &frame.provider);
            take_later(&mut self.generation_id, &frame.id);
        }
        let mut deltas: Vec<StreamDelta> = Vec::new();
        assert(types::deltas_view(deltas@) =~= Seq::empty());
        if frame.choices.len() == 0 {
            return deltas;
        }
        let choice = &frame.choices[0];
        take_later(&mut self.finish_reason, &choice.finish_reason);
        if self.dialect == Dialect::OpenRouter {
            take_later(&mut self.native_finish_reason, &choice.native_finish_reason);
        }
        let ghost before_content = self.content@;
        if let Some(content) = shown_text(self.dialect, &choice.delta) {
            self.content.append(content.as_str());
            deltas.push(StreamDelta::Content(content));
            assert(types::deltas_view(deltas@) =~= seq![DeltaView::Content(content@)]);
        }
        let ghost first = types::deltas_view(deltas@);
        assert(self.content@ =~= before_content + types::or_empty(
            shown(self.dialect, choice.delta),
        ));
        if let Some(pieces) = &choice.delta.tool_calls {
            self.add_pieces(pieces, &mut deltas);
        }
        assert(types::deltas_view(deltas@) =~= first + pieces_deltas(
            old(self).assembled().calls,
            pieces_of(*choice),
        ));
        deltas
    }

    fn add_pieces(&mut self, pieces: &Vec<StreamingToolCall>, deltas: &mut Vec<StreamDelta>)
        requires
            old(self).well_formed(),
            forall|i: int| 0 <= i < pieces@.len() ==> (#[trigger] pieces@[i]).index < usize::MAX,
        ensures
            final(self).well_formed(),
            final(self).dialect() == old(self).dialect(),
            final(self).pending() == old(self).pending(),
            final(self).assembled() == (Assembled {
                calls: with_pieces(old(self).assembled().calls, pieces@),
                ..old(self).assembled()
            }),
            types::deltas_view(final(deltas)@) == types::deltas_view(old(deltas)@) + pieces_deltas(
                old(self).assembled().calls,
                pieces@,
            ),
    {
        let ghost start = partials(self.calls@);
        let ghost sent = types::deltas_view(deltas@);
        let mut at: usize = 0;
        assert(pieces@.take(0) =~= Seq::empty());
        assert(sent + Seq::<DeltaView>::empty() =~= sent);
        while at < pieces.len()
            invariant
                at <= pieces.len(),
                start == old(self).assembled().calls,
                self.well_formed(),
                self.dialect() == old(self).dialect(),
                self.pending() == old(self).pending(),
                self.assembled() == (Assembled {
                    calls: with_pieces(start, pieces@.take(at as int)),
                    ..old(self).assembled()
                }),
                types::deltas_view(deltas@) == sent + pieces_deltas(start, pieces@.take(at as int)),
                forall|i: int| 0 <= i < pieces@.len() ==> (#[trigger] pieces@[i]).index < usize::MAX,
            decreases pieces.len() - at,
        {
            let ghost before = types::deltas_view(deltas@);
            self.add_piece(&pieces[at], deltas);
            proof {
                let grown = pieces@.take(at + 1);
                assert(grown.drop_last() =~= pieces@.take(at as int));
                assert(grown.last() == pieces@[at as int]);
                assert(types::deltas_view(deltas@) =~= sent + pieces_deltas(start, grown));
            }
            at = at + 1;
        }
        assert(pieces@.take(at as int) =~= pieces@);
    }

    fn add_piece(&mut self, piece: &StreamingToolCall, deltas: &mut Vec<StreamDelta>)
        requires
            old(self).well_formed(),
            piece.index < usize::MAX,
        ensures
            final(self).well_formed(),
            final(self).dialect() == old(self).dialect(),
            final(self).pending() == old(self).pending(),
            ({
                let wide = reaching(old(self).assembled().calls, piece.index as int);
                let call = wide[piece.index as int];
                &&& final(self).assembled() == (Assembled {
                    calls: wide.update(piece.index as int, with_piece(call, *piece)),
                    ..old(self).assembled()
                })
                &&& types::deltas_view(final(deltas)@) == types::deltas_view(old(deltas)@)
                    + piece_deltas(call, *piece)
            }),
    {
        let ghost start = partials(self.calls@);
        let ghost sent = types::deltas_view(deltas@);
        let ghost wide = reaching(start, piece.index as int);
        while self.calls.len() <= piece.index
            invariant
                self.well_formed(),
                self.dialect() == old(self).dialect(),
                self.pending() == old(self).pending(),
                start == old(self).assembled().calls,
                self.assembled() == (Assembled { calls: partials(self.calls@), ..old(self).assembled() }),
                start.len() <= self.calls@.len(),
                start.len() < self.calls@.len() ==> self.calls@.len() <= piece.index + 1,
                forall|i: int| 0 <= i < start.len() ==> (#[trigger] self.calls@[i])@ == start[i],
                forall|i: int|
                    start.len() <= i < self.calls@.len() ==> (#[trigger] self.calls@[i])@
                        == blank_call(),
                piece.index < usize::MAX,
            decreases piece.index + 1 - self.calls@.len(),
        {
            self.calls.push(blank_accumulator());
        }
        assert(partials(self.calls@) =~= wide);
        let index = piece.index;
        let ghost call = self.calls@[index as int]@;
        assert(call == wide[index as int]);
        let id = match &piece.id {
            Some(id) => id.clone(),
            None => self.calls[index].id.clone(),
        };
        let call_type = match &piece.call_type {
            Some(call_type) => call_type.clone(),
            None => self.calls[index].call_type.clone(),
        };
        let mut name = self.calls[index].name.clone();
        let mut arguments = self.calls[index].arguments.clone();
        let mut announced = self.calls[index].announced;
        if let Some(function) = &piece.function {
            if let Some(given) = &function.name {
                if name.as_str().is_empty() {
                    name = given.clone();
                }
            }
            if let Some(given) = &function.arguments {
                arguments.append(given.as_str());
                deltas.push(StreamDelta::ToolCallArguments { index, arguments: given.clone() });
            }
        }
        proof {
            assert(arguments@ =~= call.arguments + types::or_empty(piece.given_arguments()));
        }
        if !announced && !id.as_str().is_empty() && !name.as_str().is_empty() {
            announced = true;
            deltas.push(StreamDelta::ToolCallStart { index, id: id.clone(), name: name.clone() });
        }
        let call_now = ToolCallAccumulator { id, call_type, name, arguments, announced };
        self.calls.set(index, call_now);
        proof {
            assert(call_now@ == with_piece(call, *piece));
            assert(partials(self.calls@) =~= wide.update(index as int, call_now@));
            assert(types::deltas_view(deltas@) =~= sent + piece_deltas(call, *piece));
        }
    }
}

impl ChatStream {
    /// Ends the stream. One that came without a sentinel is closed here. An
    /// OpenRouter stream that carried neither a frame nor the sentinel has
    /// delivered nothing, which is no empty answer but a failure.
    pub fn finish(self, trace_id: Option<&str>) -> (outcome: Result<
        (Vec<StreamDelta>, CompletionResponse),
        ProviderError,
    >)
        requires
            self.well_formed(),
        ensures
            match outcome {
                Ok((deltas, response)) => {
                    &&& !self.assembled().delivered_nothing(self.dialect())
                    &&& types::deltas_view(deltas@) == self.assembled().last_deltas()
                    &&& response@ == self.assembled().completion()
                },
                Err(error) => self.assembled().delivered_nothing(self.dialect())
                    && error::is_delivered_nothing(
                    error,
                    "chat stream"@,
                    text::optional_slice(trace_id),
                ),
            },
    {
        if self.dialect == Dialect::OpenRouter && !self.saw_payload && !self.done {
            return Err(error::stream_delivered_nothing("chat stream", trace_id));
        }
        let ghost all = self.assembled();
        let mut deltas: Vec<StreamDelta> = Vec::new();
        if !self.done {
            deltas.push(
                StreamDelta::Done { finish_reason: text::copy_optional(&self.finish_reason) },
            );
        }
        assert(types::deltas_view(deltas@) =~= all.last_deltas());
        let tool_calls = finished_calls(&self.calls);
        let response = CompletionResponse {
            content: self.content,
            tool_calls,
            finish_reason: self.finish_reason,
            native_finish_reason: self.native_finish_reason,
            completion_tokens: None,
            upstream_provider: self.upstream_provider,
            generation_id: self.generation_id,
        };
        Ok((deltas, response))
    }
}

fn finished_calls(calls: &Vec<ToolCallAccumulator>) -> (tool_calls: Option<Vec<ToolCall>>)
    ensures
        types::optional_calls(tool_calls) == finished(partials(calls@)),
{
    if calls.len() == 0 {
        return None;
    }
    let mut tool_calls: Vec<ToolCall> = Vec::new();
    let mut at: usize = 0;
    while at < calls.len()
        invariant
            at <= calls.len(),
            tool_calls.len() == at,
            forall|i: int|
                0 <= i < at ==> (#[trigger] tool_calls@[i])@ == finished_call(calls@[i]@),
        decreases calls.len() - at,
    {
        tool_calls.push(
            ToolCall {
                id: calls[at].id.clone(),
                call_type: Some(calls[at].call_type.clone()),
                function: Some(
                    ToolCallFunction {
                        name: calls[at].name.clone(),
                        arguments: calls[at].arguments.clone(),
                    },
                ),
                name: None,
                arguments: None,
            },
        );
        at = at + 1;
    }
    assert(types::calls_view(tool_calls@) =~= finished(partials(calls@))->0);
    Some(tool_calls)
}

// ==================== What holds of every stream ====================

/// The text that increments show, put together.
pub open spec fn shown_by(deltas: Seq<DeltaView>) -> Seq<char>
    decreases deltas.len(),
{
    if deltas.len() == 0 {
        Seq::empty()
    } else {
        shown_by(deltas.drop_last()) + match deltas.last() {
            DeltaView::Content(text) => text,
            _ => Seq::empty(),
        }
    }
}

/// The arguments that increments bring to the call at `index`, put together.
pub open spec fn arguments_by(deltas: Seq<DeltaView>, index: int) -> Seq<char>
    decreases deltas.len(),
{
    if deltas.len() == 0 {
        Seq::empty()
    } else {
        arguments_by(deltas.drop_last(), index) + match deltas.last() {
            DeltaView::ToolCallArguments { index: at, arguments } => if at == index {
                arguments
            } else {
                Seq::empty()
            },
            _ => Seq::empty(),
        }
    }
}

/// How often increments announce the call at `index`.
pub open spec fn starts_by(deltas: Seq<DeltaView>, index: int) -> nat
    decreases deltas.len(),
{
    if deltas.len() == 0 {
        0
    } else {
        starts_by(deltas.drop_last(), index) + match deltas.last() {
            DeltaView::ToolCallStart { index: at, .. } => if at == index {
                1nat
            } else {
                0nat
            },
            _ => 0nat,
        }
    }
}

/// How often increments close the stream.
pub open spec fn closings_by(deltas: Seq<DeltaView>) -> nat
    decreases deltas.len(),
{
    if deltas.len() == 0 {
        0
    } else {
        closings_by(deltas.drop_last()) + if deltas.last() is Done {
            1nat
        } else {
            0nat
        }
    }
}

/// What increments add up to is what their parts add up to.
pub proof fn lemma_by_concat(first: Seq<DeltaView>, second: Seq<DeltaView>, index: int)
    ensures
        shown_by(first + second) == shown_by(first) + shown_by(second),
        arguments_by(first + second, index) == arguments_by(first, index) + arguments_by(
            second,
            index,
        ),
        starts_by(first + second, index) == starts_by(first, index) + starts_by(second, index),
        closings_by(first + second) == closings_by(first) + closings_by(second),
    decreases second.len(),
{
    if second.len() == 0 {
        assert(first + second =~= first);
        assert(shown_by(first) + shown_by(second) =~= shown_by(first));
        assert(arguments_by(first, index) + arguments_by(second, index) =~= arguments_by(
            first,
            index,
        ));
    } else {
        lemma_by_concat(first, second.drop_last(), index);
        assert((first + second).drop_last() =~= first + second.drop_last());
        assert((first + second).last() == second.last());
        assert(shown_by(first + second) =~= shown_by(first) + shown_by(second));
        assert(arguments_by(first + second, index) =~= arguments_by(first, index) + arguments_by(
            second,
            index,
        ));
    }
}

/// The arguments of the call at `index`, as far as they have come.
pub open spec fn arguments_at(calls: Seq<PartialCall>, index: int) -> Seq<char> {
    if 0 <= index < calls.len() {
        calls[index].arguments
    } else {
        Seq::empty()
    }
}

/// Whether the call at `index` has been announced.
pub open spec fn announced_at(calls: Seq<PartialCall>, index: int) -> bool {
    0 <= index < calls.len() && calls[index].announced
}

/// Whether the call at `index` has both an id and a name.
pub open spec fn nameable_at(calls: Seq<PartialCall>, index: int) -> bool {
    0 <= index < calls.len() && calls[index].id.len() > 0 && calls[index].name.len() > 0
}

/// How often a call is announced between `calls` and `after`: once if it is
/// then and was not before.
pub open spec fn starts_between(calls: Seq<PartialCall>, after: Seq<PartialCall>, index: int) -> nat {
    if announced_at(after, index) && !announced_at(calls, index) {
        1
    } else {
        0
    }
}

proof fn lemma_pieces(calls: Seq<PartialCall>, pieces: Seq<StreamingToolCall>, index: int)
    requires
        0 <= index,
    ensures
        shown_by(pieces_deltas(calls, pieces)) == Seq::<char>::empty(),
        closings_by(pieces_deltas(calls, pieces)) == 0,
        arguments_at(with_pieces(calls, pieces), index) == arguments_at(calls, index)
            + arguments_by(pieces_deltas(calls, pieces), index),
        announced_at(calls, index) ==> announced_at(with_pieces(calls, pieces), index),
        starts_by(pieces_deltas(calls, pieces), index) == starts_between(
            calls,
            with_pieces(calls, pieces),
            index,
        ),
        (nameable_at(calls, index) ==> announced_at(calls, index)) ==> (nameable_at(
            with_pieces(calls, pieces),
            index,
        ) ==> announced_at(with_pieces(calls, pieces), index)),
    decreases pieces.len(),
{
    if pieces.len() == 0 {
        assert(arguments_at(calls, index) + Seq::<char>::empty() =~= arguments_at(calls, index));
    } else {
        let before = with_pieces(calls, pieces.drop_last());
        let early = pieces_deltas(calls, pieces.drop_last());
        let piece = pieces.last();
        let at = piece.index as int;
        let wide = reaching(before, at);
        let deltas = piece_deltas(wide[at], piece);
        lemma_pieces(calls, pieces.drop_last(), index);
        lemma_by_concat(early, deltas, index);
        lemma_piece(wide[at], piece, index);
        assert(arguments_at(wide, index) == arguments_at(before, index));
        assert(announced_at(wide, index) == announced_at(before, index));
        assert(nameable_at(wide, index) == nameable_at(before, index));
        let after = with_pieces(calls, pieces);
        assert(after == wide.update(at, with_piece(wide[at], piece)));
        assert(arguments_at(after, index) =~= arguments_at(calls, index) + arguments_by(
            pieces_deltas(calls, pieces),
            index,
        ));
        assert(shown_by(early) + shown_by(deltas) =~= Seq::<char>::empty());
    }
}

proof fn lemma_piece(call: PartialCall, piece: StreamingToolCall, index: int)
    ensures
        shown_by(piece_deltas(call, piece)) == Seq::<char>::empty(),
        closings_by(piece_deltas(call, piece)) == 0,
        arguments_by(piece_deltas(call, piece), index) == (if piece.index == index {
            types::or_empty(piece.given_arguments())
        } else {
            Seq::<char>::empty()
        }),
        starts_by(piece_deltas(call, piece), index) == (if piece.index == index && with_piece(
            call,
            piece,
        ).announced && !call.announced {
            1nat
        } else {
            0nat
        }),
{
    let deltas = piece_deltas(call, piece);
    reveal_with_fuel(shown_by, 3);
    reveal_with_fuel(arguments_by, 3);
    reveal_with_fuel(starts_by, 3);
    reveal_with_fuel(closings_by, 3);
    assert(shown_by(deltas) =~= Seq::<char>::empty());
    assert(arguments_by(deltas, index) =~= (if piece.index == index {
        types::or_empty(piece.given_arguments())
    } else {
        Seq::<char>::empty()
    }));
}

/// What a stream brings, one after the other.
pub enum StreamEvent {
    Frame(StreamingResponse),
    Sentinel,
}

impl Assembled {
    /// What has come once `event` has. Behind the sentinel nothing counts.
    pub open spec fn with_event(self, dialect: Dialect, event: StreamEvent) -> Assembled {
        if self.done {
            self
        } else {
            match event {
                StreamEvent::Frame(frame) => self.with_frame(dialect, frame),
                StreamEvent::Sentinel => Assembled { done: true, ..self },
            }
        }
    }

    /// The increments that `event` brings.
    pub open spec fn event_deltas(self, dialect: Dialect, event: StreamEvent) -> Seq<DeltaView> {
        if self.done {
            Seq::empty()
        } else {
            match event {
                StreamEvent::Frame(frame) => self.frame_deltas(dialect, frame),
                StreamEvent::Sentinel => seq![self.closing()],
            }
        }
    }

    /// What has come once all of `events` have.
    pub open spec fn with_events(self, dialect: Dialect, events: Seq<StreamEvent>) -> Assembled
        decreases events.len(),
    {
        if events.len() == 0 {
            self
        } else {
            self.with_events(dialect, events.drop_last()).with_event(dialect, events.last())
        }
    }

    /// The increments that `events` bring.
    pub open spec fn events_deltas(self, dialect: Dialect, events: Seq<StreamEvent>) -> Seq<
        DeltaView,
    >
        decreases events.len(),
    {
        if events.len() == 0 {
            Seq::empty()
        } else {
            self.events_deltas(dialect, events.drop_last()) + self.with_events(
                dialect,
                events.drop_last(),
            ).event_deltas(dialect, events.last())
        }
    }
}

proof fn lemma_event(state: Assembled, dialect: Dialect, event: StreamEvent, index: int)
    requires
        0 <= index,
    ensures
        ({
            let end = state.with_event(dialect, event);
            let deltas = state.event_deltas(dialect, event);
            &&& end.content == state.content + shown_by(deltas)
            &&& arguments_at(end.calls, index) == arguments_at(state.calls, index) + arguments_by(
                deltas,
                index,
            )
            &&& announced_at(state.calls, index) ==> announced_at(end.calls, index)
            &&& starts_by(deltas, index) == starts_between(state.calls, end.calls, index)
            &&& (nameable_at(state.calls, index) ==> announced_at(state.calls, index)) ==> (
            nameable_at(end.calls, index) ==> announced_at(end.calls, index))
            &&& closings_by(deltas) == (if end.done && !state.done {
                1nat
            } else {
                0nat
            })
        }),
{
    let end = state.with_event(dialect, event);
    let deltas = state.event_deltas(dialect, event);
    reveal_with_fuel(shown_by, 2);
    reveal_with_fuel(arguments_by, 2);
    reveal_with_fuel(starts_by, 2);
    reveal_with_fuel(closings_by, 2);
    match event {
        StreamEvent::Frame(frame) => if !state.done && frame.choices@.len() > 0 {
            let choice = frame.choices@[0];
            let content = match shown(dialect, choice.delta) {
                Some(content) => seq![DeltaView::Content(content)],
                None => Seq::empty(),
            };
            let rest = pieces_deltas(state.calls, pieces_of(choice));
            lemma_by_concat(content, rest, index);
            lemma_pieces(state.calls, pieces_of(choice), index);
            assert(shown_by(content) =~= types::or_empty(shown(dialect, choice.delta)));
            assert(arguments_by(content, index) =~= Seq::<char>::empty());
            assert(shown_by(deltas) =~= types::or_empty(shown(dialect, choice.delta)));
            assert(arguments_by(deltas, index) =~= arguments_by(rest, index));
        },
        StreamEvent::Sentinel => {},
    }
    assert(end.content =~= state.content + shown_by(deltas));
    assert(arguments_at(end.calls, index) =~= arguments_at(state.calls, index) + arguments_by(
        deltas,
        index,
    ));
}

/// Whatever a stream brings: the text of the answer is the text that was
/// streamed, and the arguments of each call are the arguments that were
/// streamed for it. A call is announced exactly once if it is announced at all,
/// and it is as soon as it has both an id and a name.
pub proof fn lemma_answer_is_what_was_streamed(
    start: Assembled,
    dialect: Dialect,
    events: Seq<StreamEvent>,
    index: int,
)
    requires
        0 <= index,
    ensures
        ({
            let end = start.with_events(dialect, events);
            let deltas = start.events_deltas(dialect, events);
            &&& end.content == start.content + shown_by(deltas)
            &&& arguments_at(end.calls, index) == arguments_at(start.calls, index) + arguments_by(
                deltas,
                index,
            )
            &&& announced_at(start.calls, index) ==> announced_at(end.calls, index)
            &&& starts_by(deltas, index) == starts_between(start.calls, end.calls, index)
            &&& (nameable_at(start.calls, index) ==> announced_at(start.calls, index)) ==> (
            nameable_at(end.calls, index) ==> announced_at(end.calls, index))
        }),
    decreases events.len(),
{
    if events.len() == 0 {
        assert(start.content + Seq::<char>::empty() =~= start.content);
        assert(arguments_at(start.calls, index) + Seq::<char>::empty() =~= arguments_at(
            start.calls,
            index,
        ));
    } else {
        let early = start.events_deltas(dialect, events.drop_last());
        let mid = start.with_events(dialect, events.drop_last());
        let deltas = mid.event_deltas(dialect, events.last());
        lemma_answer_is_what_was_streamed(start, dialect, events.drop_last(), index);
        lemma_by_concat(early, deltas, index);
        lemma_event(mid, dialect, events.last(), index);
        let end = mid.with_event(dialect, events.last());
        assert(end.content =~= start.content + shown_by(early + deltas));
        assert(arguments_at(end.calls, index) =~= arguments_at(start.calls, index) + arguments_by(
            early + deltas,
            index,
        ));
    }
}

/// A call that ends up with both an id and a name has been announced exactly
/// once.
pub proof fn lemma_a_call_is_announced_once(
    dialect: Dialect,
    events: Seq<StreamEvent>,
    index: int,
)
    requires
        nameable_at(Assembled::nothing().with_events(dialect, events).calls, index),
    ensures
        starts_by(Assembled::nothing().events_deltas(dialect, events), index) == 1,
{
    lemma_answer_is_what_was_streamed(Assembled::nothing(), dialect, events, index);
}

/// Whatever a stream brings, it is closed exactly once: by its first sentinel,
/// or by its end where it brings none. The closing increment is the last one
/// and gives the reason that the completion gives. A stream that has delivered
/// nothing has not been closed.
pub proof fn lemma_closed_exactly_once(dialect: Dialect, events: Seq<StreamEvent>)
    ensures
        ({
            let start = Assembled::nothing();
            let end = start.with_events(dialect, events);
            let all = start.events_deltas(dialect, events) + end.last_deltas();
            &&& closings_by(all) == 1
            &&& all.len() > 0
            &&& all.last() == DeltaView::Done { finish_reason: end.completion().finish_reason }
            &&& end.delivered_nothing(dialect) ==> start.events_deltas(dialect, events).len() == 0
        }),
{
    let start = Assembled::nothing();
    let end = start.with_events(dialect, events);
    let deltas = start.events_deltas(dialect, events);
    lemma_closing(dialect, events);
    lemma_by_concat(deltas, end.last_deltas(), 0);
    reveal_with_fuel(closings_by, 2);
    if end.done {
        assert(deltas + end.last_deltas() =~= deltas);
    }
}

proof fn lemma_closing(dialect: Dialect, events: Seq<StreamEvent>)
    ensures
        ({
            let end = Assembled::nothing().with_events(dialect, events);
            let deltas = Assembled::nothing().events_deltas(dialect, events);
            &&& end.done ==> closings_by(deltas) == 1 && deltas.len() > 0 && deltas.last()
                == end.closing()
            &&& !end.done ==> closings_by(deltas) == 0
            &&& !end.done && !end.saw_payload ==> deltas.len() == 0
        }),
    decreases events.len(),
{
    if events.len() > 0 {
        let start = Assembled::nothing();
        let early = start.events_deltas(dialect, events.drop_last());
        let mid = start.with_events(dialect, events.drop_last());
        let deltas = mid.event_deltas(dialect, events.last());
        lemma_closing(dialect, events.drop_last());
        lemma_event(mid, dialect, events.last(), 0);
        lemma_by_concat(early, deltas, 0);
        if mid.done {
            assert(early + deltas =~= early);
        }
    }
}

// ==================== What frames add up to ====================

/// The arguments that `pieces` bring to the call at `index`, one behind the
/// other.
pub open spec fn arguments_of(pieces: Seq<StreamingToolCall>, index: int) -> Seq<char>
    decreases pieces.len(),
{
    if pieces.len() == 0 {
        Seq::empty()
    } else {
        let early = arguments_of(pieces.drop_last(), index);
        match pieces.last().function {
            Some(StreamingFunction { arguments: Some(arguments), .. }) => if pieces.last().index
                == index {
                early + arguments@
            } else {
                early
            },
            _ => early,
        }
    }
}

/// The id of the call at `index`, which was `before`, once `pieces` have come:
/// the last one that they give.
pub open spec fn id_of(pieces: Seq<StreamingToolCall>, index: int, before: Seq<char>) -> Seq<char>
    decreases pieces.len(),
{
    if pieces.len() == 0 {
        before
    } else {
        match pieces.last().id {
            Some(id) => if pieces.last().index == index {
                id@
            } else {
                id_of(pieces.drop_last(), index, before)
            },
            None => id_of(pieces.drop_last(), index, before),
        }
    }
}

/// The type of the call at `index`, which was `before`, once `pieces` have
/// come: the last one that they give.
pub open spec fn type_of(pieces: Seq<StreamingToolCall>, index: int, before: Seq<char>) -> Seq<char>
    decreases pieces.len(),
{
    if pieces.len() == 0 {
        before
    } else {
        match pieces.last().call_type {
            Some(call_type) => if pieces.last().index == index {
                call_type@
            } else {
                type_of(pieces.drop_last(), index, before)
            },
            None => type_of(pieces.drop_last(), index, before),
        }
    }
}

/// The name of the call at `index`, which was `before`, once `pieces` have
/// come: the first one that is not empty.
pub open spec fn name_of(pieces: Seq<StreamingToolCall>, index: int, before: Seq<char>) -> Seq<char>
    decreases pieces.len(),
{
    if pieces.len() == 0 {
        before
    } else {
        let early = name_of(pieces.drop_last(), index, before);
        match pieces.last().function {
            Some(StreamingFunction { name: Some(name), .. }) => if pieces.last().index == index
                && early.len() == 0 {
                name@
            } else {
                early
            },
            _ => early,
        }
    }
}

/// How many calls `pieces` reach to.
pub open spec fn reach_of(pieces: Seq<StreamingToolCall>, before: int) -> int
    decreases pieces.len(),
{
    if pieces.len() == 0 {
        before
    } else {
        let early = reach_of(pieces.drop_last(), before);
        if pieces.last().index >= early {
            pieces.last().index + 1
        } else {
            early
        }
    }
}

/// The call at `index` as far as it has come; a blank one where none has.
pub open spec fn call_at(calls: Seq<PartialCall>, index: int) -> PartialCall {
    if 0 <= index < calls.len() {
        calls[index]
    } else {
        PartialCall {
            id: Seq::empty(),
            call_type: Seq::empty(),
            name: Seq::empty(),
            arguments: Seq::empty(),
            announced: false,
        }
    }
}

proof fn lemma_all_pieces_count(
    calls: Seq<PartialCall>,
    pieces: Seq<StreamingToolCall>,
    index: int,
)
    requires
        0 <= index,
    ensures
        ({
            let after = with_pieces(calls, pieces);
            let before = call_at(calls, index);
            &&& after.len() == reach_of(pieces, calls.len() as int)
            &&& after.len() >= calls.len()
            &&& forall|k: int|
                0 <= k < pieces.len() ==> (#[trigger] pieces[k]).index < after.len()
            &&& call_at(after, index).arguments == before.arguments + arguments_of(pieces, index)
            &&& call_at(after, index).id == id_of(pieces, index, before.id)
            &&& call_at(after, index).call_type == type_of(pieces, index, before.call_type)
            &&& call_at(after, index).name == name_of(pieces, index, before.name)
        }),
    decreases pieces.len(),
{
    let before = call_at(calls, index);
    if pieces.len() == 0 {
        assert(before.arguments + Seq::<char>::empty() =~= before.arguments);
    } else {
        let early = pieces.drop_last();
        lemma_all_pieces_count(calls, early, index);
        let mid = with_pieces(calls, early);
        let piece = pieces.last();
        let wide = reaching(mid, piece.index as int);
        let after = with_pieces(calls, pieces);
        assert(call_at(wide, index) == call_at(mid, index));
        assert(call_at(after, index).arguments =~= before.arguments + arguments_of(pieces, index));
        assert forall|k: int| 0 <= k < pieces.len() implies (#[trigger] pieces[k]).index
            < after.len() by {
            if k < early.len() {
                assert(pieces[k] == early[k]);
            }
        }
    }
}

/// Every piece in the list of tool calls that a frame's first choice brings
/// counts. There is a call at the index of each piece. The arguments of the call
/// at an index are those before the frame followed by those of all pieces in the
/// list with that index, in order; its id and its type are the last ones, its
/// name the first that is not empty. The increments forward the same arguments.
pub proof fn lemma_every_piece_of_a_frame_counts(
    state: Assembled,
    dialect: Dialect,
    frame: StreamingResponse,
    pieces: Vec<StreamingToolCall>,
    index: int,
)
    requires
        !state.done,
        frame.choices@.len() > 0,
        frame.choices@[0].delta.tool_calls == Some(pieces),
        0 <= index,
    ensures
        ({
            let end = state.with_event(dialect, StreamEvent::Frame(frame));
            let deltas = state.event_deltas(dialect, StreamEvent::Frame(frame));
            let before = call_at(state.calls, index);
            let after = call_at(end.calls, index);
            &&& end.calls.len() == reach_of(pieces@, state.calls.len() as int)
            &&& forall|k: int|
                0 <= k < pieces@.len() ==> (#[trigger] pieces@[k]).index < end.calls.len()
            &&& after.arguments == before.arguments + arguments_of(pieces@, index)
            &&& after.id == id_of(pieces@, index, before.id)
            &&& after.call_type == type_of(pieces@, index, before.call_type)
            &&& after.name == name_of(pieces@, index, before.name)
            &&& arguments_by(deltas, index) == arguments_of(pieces@, index)
        }),
{
    lemma_all_pieces_count(state.calls, pieces@, index);
    lemma_event(state, dialect, StreamEvent::Frame(frame), index);
    let end = state.with_event(dialect, StreamEvent::Frame(frame));
    let deltas = state.event_deltas(dialect, StreamEvent::Frame(frame));
    let before = arguments_at(state.calls, index);
    let after = arguments_at(end.calls, index);
    assert(after.skip(before.len() as int) =~= arguments_by(deltas, index));
    assert(after.skip(before.len() as int) =~= arguments_of(pieces@, index));
}

/// The text that a frame brings: of its first choice the content or, where a
/// compatible provider leaves that out or empty, the reasoning.
pub open spec fn text_of(dialect: Dialect, frame: StreamingResponse) -> Seq<char> {
    if frame.choices@.len() == 0 {
        Seq::empty()
    } else {
        match (dialect, frame.choices@[0].delta.content, frame.choices@[0].delta.reasoning_content) {
            (Dialect::OpenRouter, Some(content), _) => content@,
            (Dialect::OpenRouter, None, _) => Seq::empty(),
            (Dialect::Compatible, Some(content), None) => content@,
            (Dialect::Compatible, None, None) => Seq::empty(),
            (Dialect::Compatible, None, Some(reasoning)) => reasoning@,
            (Dialect::Compatible, Some(content), Some(reasoning)) => if content@.len() > 0 {
                content@
            } else {
                reasoning@
            },
        }
    }
}

/// A frame adds its text, and what it says of the end of the answer and of
/// where it comes from; what it does not say stays. Only the router names the
/// upstream, the generation and the upstream's own reason.
pub proof fn lemma_a_frame_adds_what_it_says(
    state: Assembled,
    dialect: Dialect,
    frame: StreamingResponse,
)
    requires
        !state.done,
    ensures
        ({
            let end = state.with_event(dialect, StreamEvent::Frame(frame));
            let routed = dialect == Dialect::OpenRouter;
            &&& end.content == state.content + text_of(dialect, frame)
            &&& !end.done
            &&& end.saw_payload
            &&& frame.choices@.len() == 0 || frame.choices@[0].delta.tool_calls is None
                ==> end.calls == state.calls
            &&& end.finish_reason == (if frame.choices@.len() > 0
                && frame.choices@[0].finish_reason is Some {
                Some(frame.choices@[0].finish_reason->0@)
            } else {
                state.finish_reason
            })
            &&& end.native_finish_reason == (if routed && frame.choices@.len() > 0
                && frame.choices@[0].native_finish_reason is Some {
                Some(frame.choices@[0].native_finish_reason->0@)
            } else {
                state.native_finish_reason
            })
            &&& end.upstream_provider == (if routed && frame.provider is Some {
                Some(frame.provider->0@)
            } else {
                state.upstream_provider
            })
            &&& end.generation_id == (if routed && frame.id is Some {
                Some(frame.id->0@)
            } else {
                state.generation_id
            })
        }),
{
    let end = state.with_event(dialect, StreamEvent::Frame(frame));
    assert(end.content =~= state.content + text_of(dialect, frame));
}

/// The text that the frames in front of the first sentinel bring.
pub open spec fn text_before_sentinel(dialect: Dialect, events: Seq<StreamEvent>) -> Seq<char>
    decreases events.len(),
{
    if events.len() == 0 {
        Seq::empty()
    } else {
        match events[0] {
            StreamEvent::Frame(frame) => text_of(dialect, frame) + text_before_sentinel(
                dialect,
                events.skip(1),
            ),
            StreamEvent::Sentinel => Seq::empty(),
        }
    }
}

/// The arguments that the frames in front of the first sentinel bring to the
/// call at `index`.
pub open spec fn arguments_before_sentinel(events: Seq<StreamEvent>, index: int) -> Seq<char>
    decreases events.len(),
{
    if events.len() == 0 {
        Seq::empty()
    } else {
        match events[0] {
            StreamEvent::Frame(frame) => {
                let late = arguments_before_sentinel(events.skip(1), index);
                if frame.choices@.len() > 0 {
                    match frame.choices@[0].delta.tool_calls {
                        Some(pieces) => arguments_of(pieces@, index) + late,
                        None => late,
                    }
                } else {
                    late
                }
            },
            StreamEvent::Sentinel => Seq::empty(),
        }
    }
}

proof fn lemma_events_from_the_front(start: Assembled, dialect: Dialect, events: Seq<StreamEvent>)
    requires
        events.len() > 0,
    ensures
        start.with_events(dialect, events) == start.with_event(dialect, events[0]).with_events(
            dialect,
            events.skip(1),
        ),
    decreases events.len(),
{
    if events.len() == 1 {
        reveal_with_fuel(Assembled::with_events, 2);
        assert(events.drop_last() =~= Seq::empty());
        assert(events.skip(1) =~= Seq::empty());
    } else {
        lemma_events_from_the_front(start, dialect, events.drop_last());
        assert(events.drop_last().skip(1) =~= events.skip(1).drop_last());
        assert(events.skip(1).last() == events.last());
    }
}

proof fn lemma_closed_takes_nothing(start: Assembled, dialect: Dialect, events: Seq<StreamEvent>)
    requires
        start.done,
    ensures
        start.with_events(dialect, events) == start,
    decreases events.len(),
{
    if events.len() > 0 {
        lemma_closed_takes_nothing(start, dialect, events.drop_last());
    }
}

proof fn lemma_frames_add_up(
    start: Assembled,
    dialect: Dialect,
    events: Seq<StreamEvent>,
    index: int,
)
    requires
        0 <= index,
        !start.done,
    ensures
        ({
            let end = start.with_events(dialect, events);
            &&& end.content == start.content + text_before_sentinel(dialect, events)
            &&& call_at(end.calls, index).arguments == call_at(start.calls, index).arguments
                + arguments_before_sentinel(events, index)
        }),
    decreases events.len(),
{
    let end = start.with_events(dialect, events);
    if events.len() > 0 {
        lemma_events_from_the_front(start, dialect, events);
        let next = start.with_event(dialect, events[0]);
        match events[0] {
            StreamEvent::Frame(frame) => {
                lemma_a_frame_adds_what_it_says(start, dialect, frame);
                if frame.choices@.len() > 0 {
                    if let Some(pieces) = frame.choices@[0].delta.tool_calls {
                        lemma_every_piece_of_a_frame_counts(start, dialect, frame, pieces, index);
                    }
                }
                lemma_frames_add_up(next, dialect, events.skip(1), index);
            },
            StreamEvent::Sentinel => {
                lemma_closed_takes_nothing(next, dialect, events.skip(1));
            },
        }
    }
    assert(end.content =~= start.content + text_before_sentinel(dialect, events));
    assert(call_at(end.calls, index).arguments =~= call_at(start.calls, index).arguments
        + arguments_before_sentinel(events, index));
}

/// The completion of a stream holds the text of all frames in front of the
/// first sentinel, one behind the other, and of each tool call all the arguments
/// that those frames bring to it. Nothing behind the sentinel counts.
pub proof fn lemma_a_completion_is_its_frames(
    dialect: Dialect,
    events: Seq<StreamEvent>,
    index: int,
)
    ensures
        ({
            let end = Assembled::nothing().with_events(dialect, events);
            &&& end.completion().content == text_before_sentinel(dialect, events)
            &&& match end.completion().tool_calls {
                Some(calls) => {
                    &&& calls.len() == end.calls.len()
                    &&& 0 <= index < calls.len() ==> {
                        &&& calls[index].id == end.calls[index].id
                        &&& calls[index].call_type == Some(end.calls[index].call_type)
                        &&& calls[index].function matches Some(function)
                        &&& function.0 == end.calls[index].name
                        &&& function.1 == arguments_before_sentinel(events, index)
                    }
                },
                None => end.calls.len() == 0,
            }
            &&& end.completion().finish_reason == end.finish_reason
            &&& end.completion().native_finish_reason == end.native_finish_reason
            &&& end.completion().upstream_provider == end.upstream_provider
            &&& end.completion().generation_id == end.generation_id
        }),
{
    let at = if index >= 0 {
        index
    } else {
        0
    };
    let start = Assembled::nothing();
    lemma_frames_add_up(start, dialect, events, at);
    let end = start.with_events(dialect, events);
    assert(end.content =~= text_before_sentinel(dialect, events));
    if index >= 0 {
        assert(call_at(end.calls, index).arguments =~= arguments_before_sentinel(events, index));
    }
}

/// How a call is announced: behind the arguments that its last piece brings, and
/// with the id and the name that it has by then.
pub proof fn lemma_an_announcement_names_the_call(call: PartialCall, piece: StreamingToolCall)
    ensures
        ({
            let deltas = piece_deltas(call, piece);
            forall|i: int|
                0 <= i < deltas.len() ==> match #[trigger] deltas[i] {
                    DeltaView::ToolCallStart { index, id, name } => {
                        &&& i == deltas.len() - 1
                        &&& index == piece.index
                        &&& id == with_piece(call, piece).id
                        &&& name == with_piece(call, piece).name
                        &&& id.len() > 0
                        &&& name.len() > 0
                        &&& !call.announced
                    },
                    DeltaView::ToolCallArguments { index, arguments } => {
                        &&& i == 0
                        &&& index == piece.index
                        &&& piece.function matches Some(function)
                        &&& function.arguments matches Some(given)
                        &&& given@ == arguments
                    },
                    _ => false,
                }
        }),
{
}

/// Only a routed stream that ends before any frame and any sentinel has
/// delivered nothing, and is a failure; any other stream is an answer.
pub proof fn lemma_nothing_delivered_is_no_frame_at_all(
    dialect: Dialect,
    events: Seq<StreamEvent>,
)
    ensures
        Assembled::nothing().with_events(dialect, events).delivered_nothing(dialect) <==> dialect
            == Dialect::OpenRouter && events.len() == 0,
    decreases events.len(),
{
    if events.len() > 0 {
        lemma_something_came(dialect, events);
    }
}

proof fn lemma_something_came(dialect: Dialect, events: Seq<StreamEvent>)
    requires
        events.len() > 0,
    ensures
        ({
            let end = Assembled::nothing().with_events(dialect, events);
            end.saw_payload || end.done
        }),
    decreases events.len(),
{
    let shorter = events.drop_last();
    if shorter.len() > 0 {
        lemma_something_came(dialect, shorter);
    }
}


/// A frame's text is shown first and in one increment. The router's is shown as
/// it stands; of other providers nothing is shown where there is no text.
pub proof fn lemma_a_frames_text_is_shown_first(
    state: Assembled,
    dialect: Dialect,
    frame: StreamingResponse,
)
    requires
        !state.done,
    ensures
        ({
            let deltas = state.event_deltas(dialect, StreamEvent::Frame(frame));
            let text = text_of(dialect, frame);
            let told = frame.choices@.len() > 0 && (if dialect == Dialect::OpenRouter {
                frame.choices@[0].delta.content is Some
            } else {
                text.len() > 0
            });
            &&& told ==> deltas.len() > 0 && deltas[0] == DeltaView::Content(text)
            &&& forall|i: int|
                0 <= i < deltas.len() && (#[trigger] deltas[i]) is Content ==> told && i == 0
            &&& frame.choices@.len() == 0 ==> deltas.len() == 0
        }),
{
    if frame.choices@.len() > 0 {
        let pieces = pieces_of(frame.choices@[0]);
        lemma_pieces_show_no_text(state.calls, pieces);
        let deltas = state.event_deltas(dialect, StreamEvent::Frame(frame));
        let late = pieces_deltas(state.calls, pieces);
        let n = deltas.len() - late.len();
        assert forall|i: int| n <= i < deltas.len() implies !((#[trigger] deltas[i]) is Content) by {
            assert(deltas[i] == late[i - n]);
        }
    }
}

proof fn lemma_pieces_show_no_text(calls: Seq<PartialCall>, pieces: Seq<StreamingToolCall>)
    ensures
        forall|i: int|
            0 <= i < pieces_deltas(calls, pieces).len() ==> !((#[trigger] pieces_deltas(
                calls,
                pieces,
            )[i]) is Content),
    decreases pieces.len(),
{
    if pieces.len() > 0 {
        lemma_pieces_show_no_text(calls, pieces.drop_last());
    }
}


} // verus!
