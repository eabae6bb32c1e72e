//! Ollama: its requests, its answers, and its streams of one JSON object per
//! line. The wire carries neither ids nor indices for tool calls, so both are
//! made up here.

use crate::json;
use crate::json::Json;
use crate::json::JsonTree;
use crate::outside;
use crate::providers::assembly;
use crate::providers::chat_api;
use crate::providers::chat_api::ApiTool;
use crate::providers::error::ProviderError;
use crate::providers::framing;
use crate::providers::framing::Framing;
use crate::providers::framing::LineBuffer;
use crate::providers::framing::Step;
use crate::providers::types;
use crate::providers::types::CompletionResponse;
use crate::providers::types::CompletionView;
use crate::providers::types::DeltaView;
use crate::providers::types::LlmConfig;
use crate::providers::types::Message;
use crate::providers::types::MessageView;
use crate::providers::types::StreamDelta;
use crate::providers::types::ToolCall;
use crate::providers::types::ToolCallFunction;
use crate::providers::types::ToolCallView;
use crate::providers::types::ToolDefinition;
use crate::text;
use vstd::prelude::*;

verus! {

// ==================== Requests ====================

#[derive(Debug, PartialEq)]
pub struct ApiFunctionCall {
    pub name: String,
    pub arguments: Json,
}

#[derive(Debug, PartialEq)]
pub struct ApiToolCall {
    pub function: ApiFunctionCall,
}

#[derive(Debug, PartialEq)]
pub struct ApiMessage {
    pub role: String,
    pub content: String,
    pub tool_calls: Option<Vec<ApiToolCall>>,
}

#[derive(Debug, PartialEq)]
pub struct ChatOptions {
    /// The temperature, as the bits of a number of 32 bits with a binary point.
    pub temperature: Option<u32>,
    pub num_predict: Option<u32>,
}

/// The body of a request.
#[derive(Debug, PartialEq)]
pub struct ChatRequest {
    pub model: String,
    pub messages: Vec<ApiMessage>,
    pub tools: Option<Vec<ApiTool>>,
    pub format: Option<Json>,
    pub options: Option<ChatOptions>,
    pub think: Option<bool>,
    pub stream: bool,
}

/// The arguments of a call as JSON: what their text holds, and an empty object
/// where there is no text or it does not hold JSON.
pub open spec fn argument_tree(call: ToolCallView) -> JsonTree {
    let shown = match call.called_arguments() {
        Some(arguments) => arguments,
        None => "{}"@,
    };
    match outside::json_value(shown) {
        Some(tree) => tree,
        None => JsonTree::Object(Map::empty()),
    }
}

/// Whether `api` is `call` on the wire.
pub open spec fn is_api_call(api: ApiToolCall, call: ToolCallView) -> bool {
    &&& api.function.name@ == types::or_empty(call.called_name())
    &&& api.function.arguments@ == argument_tree(call)
}

/// Whether `api` is `message` on the wire.
pub open spec fn is_api_message(api: ApiMessage, message: MessageView) -> bool {
    &&& api.role@ == message.role.name()
    &&& api.content@ == types::or_empty(message.content)
    &&& match (api.tool_calls, message.tool_calls) {
        (Some(api_calls), Some(calls)) => api_calls@.len() == calls.len() && forall|i: int|
            0 <= i < calls.len() ==> is_api_call(#[trigger] api_calls@[i], calls[i]),
        (None, None) => true,
        _ => false,
    }
}

pub fn convert_call(call: &ToolCall) -> (api: ApiToolCall)
    ensures
        is_api_call(api, call@),
        call.function matches Some(function) ==> api.function.name@ == function.name@ && (match
            outside::json_value(function.arguments@) {
            Some(tree) => api.function.arguments@ == tree,
            None => api.function.arguments@ == JsonTree::Object(Map::empty()),
        }),
{
    let shown = match call.get_arguments() {
        Some(arguments) => arguments,
        None => "{}",
    };
    let arguments = match json::parse(shown) {
        Some(arguments) => arguments,
        None => {
            let empty = Json::Object(Vec::new());
            assert(empty@ == JsonTree::Object(Map::empty()));
            empty
        },
    };
    ApiToolCall { function: ApiFunctionCall { name: call.name_or_empty(), arguments } }
}

pub fn convert_message(message: &Message) -> (api: ApiMessage)
    ensures
        is_api_message(api, message@),
        api.role@ == message.role.name(),
        api.content@ == types::or_empty(text::optional(message.content)),
        api.tool_calls is Some <==> message.tool_calls is Some,
        message.tool_calls matches Some(calls) ==> api.tool_calls->0@.len() == calls@.len()
            && forall|i: int|
            0 <= i < calls@.len() ==> is_api_call(#[trigger] api.tool_calls->0@[i], calls@[i]@),
{
    let tool_calls = match &message.tool_calls {
        Some(calls) => {
            let mut api_calls: Vec<ApiToolCall> = Vec::new();
            let mut at: usize = 0;
            while at < calls.len()
                invariant
                    at <= calls.len(),
                    api_calls.len() == at,
                    forall|i: int| 0 <= i < at ==> is_api_call(#[trigger] api_calls@[i], calls@[i]@),
                decreases calls.len() - at,
            {
                api_calls.push(convert_call(&calls[at]));
                at = at + 1;
            }
            Some(api_calls)
        },
        None => None,
    };
    ApiMessage {
        role: message.role.as_str().to_owned(),
        content: match &message.content {
            Some(content) => content.clone(),
            None => String::new(),
        },
        tool_calls,
    }
}

/// The request for an answer, in one piece or streamed. A streamed answer
/// cannot be held to a schema. Thinking is switched off where reasoning is to
/// be kept to a minimum.
pub fn chat_request(
    messages: &Vec<Message>,
    tools: &Vec<ToolDefinition>,
    config: &LlmConfig,
    stream: bool,
) -> (request: ChatRequest)
    ensures
        request.model@ == config.model@,
        request.messages@.len() == messages@.len(),
        forall|i: int|
            0 <= i < messages@.len() ==> is_api_message(#[trigger] request.messages@[i], messages@[i]@),
        chat_api::are_api_tools(request.tools, types::tools_view(tools@)),
        match request.format {
            Some(format) => !stream && (config.params.structured_output matches Some(schema)
                && format@ == schema.schema@),
            None => stream || config.params.structured_output is None,
        },
        match request.options {
            Some(options) => options.temperature == config.params.temperature
                && options.num_predict == config.params.max_tokens && (config.params.temperature
                is Some || config.params.max_tokens is Some),
            None => config.params.temperature is None && config.params.max_tokens is None,
        },
        request.think == (if config.params.minimize_reasoning {
            Some(false)
        } else {
            None
        }),
        request.stream == stream,
{
    let mut api: Vec<ApiMessage> = Vec::new();
    let mut at: usize = 0;
    while at < messages.len()
        invariant
            at <= messages.len(),
            api.len() == at,
            forall|i: int| 0 <= i < at ==> is_api_message(#[trigger] api@[i], messages@[i]@),
        decreases messages.len() - at,
    {
        api.push(convert_message(&messages[at]));
        at = at + 1;
    }
    let format = match &config.params.structured_output {
        Some(schema) => if stream {
            None
        } else {
            Some(schema.schema.clone())
        },
        None => None,
    };
    let options = if config.params.temperature.is_some() || config.params.max_tokens.is_some() {
        Some(
            ChatOptions {
                temperature: config.params.temperature,
                num_predict: config.params.max_tokens,
            },
        )
    } else {
        None
    };
    ChatRequest {
        model: config.model.clone(),
        messages: api,
        tools: chat_api::convert_tools(tools),
        format,
        options,
        think: if config.params.minimize_reasoning {
            Some(false)
        } else {
            None
        },
        stream,
    }
}

// ==================== Answers ====================

#[derive(Debug, PartialEq)]
pub struct ResponseFunctionCall {
    pub name: String,
    pub arguments: Json,
}

#[derive(Debug, PartialEq)]
pub struct ResponseToolCall {
    pub function: ResponseFunctionCall,
}

/// The message of an answer, or of one frame of a stream.
#[derive(Debug, PartialEq)]
pub struct ResponseMessage {
    pub content: String,
    pub tool_calls: Option<Vec<ResponseToolCall>>,
}

/// The body of an answer, or one frame of a stream.
#[derive(Debug, PartialEq)]
pub struct ChatResponse {
    pub message: ResponseMessage,
    pub done: bool,
}

/// A tool call of the wire once `uuid` has been picked for its id. Its
/// arguments, which come as JSON, are written as text.
pub open spec fn minted_call(call: ResponseToolCall, uuid: Seq<char>) -> ToolCallView {
    chat_api::full_call(
        "call_"@ + uuid,
        "function"@,
        call.function.name@,
        json::text_of(call.function.arguments@),
    )
}

/// The tool calls of the wire once `uuids` have been picked for their ids.
pub open spec fn minted_calls(calls: Seq<ResponseToolCall>, uuids: Seq<Seq<char>>) -> Seq<
    ToolCallView,
> {
    Seq::new(calls.len(), |i: int| minted_call(calls[i], uuids[i]))
}

/// The tool calls that a message brings.
pub open spec fn calls_in(message: ResponseMessage) -> Seq<ResponseToolCall> {
    match message.tool_calls {
        Some(calls) => calls@,
        None => Seq::empty(),
    }
}

/// The tool call that a call of the wire is, with `uuid` picked for its id.
/// Arguments that are plain JSON can be read back out of their text.
pub fn tool_call_with_id(call: &ResponseToolCall, uuid: &str) -> (tool_call: ToolCall)
    ensures
        tool_call@ == minted_call(*call, uuid@),
        tool_call.id@ == "call_"@ + uuid@,
        tool_call.function matches Some(function) && function.name@ == call.function.name@
            && function.arguments@ == json::text_of(call.function.arguments@),
        json::plain(call.function.arguments@, 127) ==> (tool_call@.called_arguments() matches Some(
            arguments,
        ) && outside::json_value(arguments) == Some(call.function.arguments@)),
{
    ToolCall {
        id: String::from_str("call_").concat(uuid),
        call_type: Some(String::from_str("function")),
        function: Some(
            ToolCallFunction {
                name: call.function.name.clone(),
                arguments: json::print(&call.function.arguments),
            },
        ),
        name: None,
        arguments: None,
    }
}

/// The tool call that a call of the wire is, with an id made up for it.
pub fn convert_tool_call(call: &ResponseToolCall) -> (tool_call: ToolCall)
    ensures
        exists|uuid: Seq<char>|
            outside::is_uuid(uuid) && tool_call@ == #[trigger] minted_call(*call, uuid),
{
    let uuid = outside::fresh_uuid();
    tool_call_with_id(call, uuid.as_str())
}

/// Whether there are `n` ids, each a random UUID.
pub open spec fn are_uuids(uuids: Seq<Seq<char>>, n: nat) -> bool {
    uuids.len() == n && forall|i: int| 0 <= i < n ==> outside::is_uuid(#[trigger] uuids[i])
}

fn mint_ids(n: usize) -> (uuids: Vec<String>)
    ensures
        are_uuids(text::texts(uuids@), n as nat),
{
    let mut uuids: Vec<String> = Vec::new();
    while uuids.len() < n
        invariant
            uuids@.len() <= n,
            forall|i: int| 0 <= i < uuids@.len() ==> outside::is_uuid((#[trigger] uuids@[i])@),
        decreases n - uuids@.len(),
    {
        uuids.push(outside::fresh_uuid());
    }
    uuids
}

/// The completion that an answer holds, once `uuids` have been picked for the
/// ids of its tool calls.
pub open spec fn completion_in(message: ResponseMessage, uuids: Seq<Seq<char>>) -> CompletionView {
    CompletionView {
        content: message.content@,
        tool_calls: match message.tool_calls {
            Some(calls) => Some(minted_calls(calls@, uuids)),
            None => None,
        },
        finish_reason: None,
        native_finish_reason: None,
        completion_tokens: None,
        upstream_provider: None,
        generation_id: None,
    }
}

/// Reads the completion out of an answer, with `uuids` picked for the ids of
/// its tool calls.
pub fn read_message(message: &ResponseMessage, uuids: &Vec<String>) -> (completion:
    CompletionResponse)
    requires
        uuids@.len() == calls_in(*message).len(),
    ensures
        completion@ == completion_in(*message, text::texts(uuids@)),
{
    let tool_calls = match &message.tool_calls {
        Some(calls) => {
            let mut tool_calls: Vec<ToolCall> = Vec::new();
            let mut at: usize = 0;
            while at < calls.len()
                invariant
                    at <= calls.len(),
                    calls@.len() == uuids@.len(),
                    tool_calls.len() == at,
                    forall|i: int|
                        0 <= i < at ==> (#[trigger] tool_calls@[i])@ == minted_call(
                            calls@[i],
                            uuids@[i]@,
                        ),
                decreases calls.len() - at,
            {
                tool_calls.push(tool_call_with_id(&calls[at], uuids[at].as_str()));
                at = at + 1;
            }
            assert(types::calls_view(tool_calls@) =~= minted_calls(calls@, text::texts(uuids@)));
            Some(tool_calls)
        },
        None => None,
    };
    CompletionResponse {
        content: message.content.clone(),
        tool_calls,
        finish_reason: None,
        native_finish_reason: None,
        completion_tokens: None,
        upstream_provider: None,
        generation_id: None,
    }
}

/// Reads the completion out of an answer, with ids made up for its tool calls.
pub fn read_response(response: &ChatResponse) -> (completion: CompletionResponse)
    ensures
        exists|uuids: Seq<Seq<char>>|
            are_uuids(uuids, calls_in(response.message).len()) && completion@
                == #[trigger] completion_in(response.message, uuids),
{
    let n = match &response.message.tool_calls {
        Some(calls) => calls.len(),
        None => 0,
    };
    let uuids = mint_ids(n);
    read_message(&response.message, &uuids)
}

/// The error that an answer without success calls for.
pub fn refused(status: u16, body: String) -> (error: ProviderError)
    ensures
        error == (ProviderError::Api { status, message: body }),
{
    ProviderError::Api { status, message: body }
}

// ==================== Streams ====================

/// What a stream has brought so far.
pub struct Gathered {
    pub content: Seq<char>,
    pub calls: Seq<ToolCallView>,
    /// Whether the frame that ends the stream has come.
    pub done: bool,
}

/// The increments that tool calls bring which stand at `base` and behind it.
pub open spec fn call_deltas(base: int, calls: Seq<ToolCallView>) -> Seq<DeltaView>
    decreases calls.len(),
{
    if calls.len() == 0 {
        Seq::empty()
    } else {
        let index = (base + calls.len() - 1) as usize;
        let call = calls.last();
        call_deltas(base, calls.drop_last()) + seq![
            DeltaView::ToolCallStart { index, id: call.id, name: types::or_empty(call.called_name()) },
            DeltaView::ToolCallArguments {
                index,
                arguments: types::or_empty(call.called_arguments()),
            },
        ]
    }
}

/// The increment that closes the stream.
pub open spec fn closing() -> DeltaView {
    DeltaView::Done { finish_reason: Some("stop"@) }
}

impl Gathered {
    /// Nothing has come yet.
    pub open spec fn nothing() -> Gathered {
        Gathered { content: Seq::empty(), calls: Seq::empty(), done: false }
    }

    /// What has come once `frame` has, with `uuids` picked for the ids of its
    /// tool calls. Behind the frame that ends the stream nothing counts.
    pub open spec fn with_frame(self, frame: ChatResponse, uuids: Seq<Seq<char>>) -> Gathered {
        if self.done {
            self
        } else {
            Gathered {
                content: self.content + frame.message.content@,
                calls: self.calls + minted_calls(calls_in(frame.message), uuids),
                done: frame.done,
            }
        }
    }

    /// The increments that `frame` brings: its text where it has any, its tool
    /// calls, each announced and then complete, and the end of the stream.
    pub open spec fn frame_deltas(self, frame: ChatResponse, uuids: Seq<Seq<char>>) -> Seq<
        DeltaView,
    > {
        let content = if frame.message.content@.len() > 0 {
            seq![DeltaView::Content(frame.message.content@)]
        } else {
            Seq::empty()
        };
        let calls = call_deltas(
            self.calls.len() as int,
            minted_calls(calls_in(frame.message), uuids),
        );
        let done = if frame.done {
            seq![closing()]
        } else {
            Seq::empty()
        };
        if self.done {
            Seq::empty()
        } else {
            content + calls + done
        }
    }

    /// The completion that a stream which ends here adds up to.
    pub open spec fn completion(self) -> CompletionView {
        CompletionView {
            content: self.content,
            tool_calls: if self.calls.len() == 0 {
                None
            } else {
                Some(self.calls)
            },
            finish_reason: None,
            native_finish_reason: None,
            completion_tokens: None,
            upstream_provider: None,
            generation_id: None,
        }
    }
}

/// A streamed answer on its way.
pub struct OllamaStream {
    buffer: LineBuffer,
    content: String,
    calls: Vec<ToolCall>,
    done: bool,
}

impl OllamaStream {
    /// What has come so far.
    pub closed spec fn gathered(&self) -> Gathered {
        Gathered {
            content: self.content@,
            calls: types::calls_view(self.calls@),
            done: self.done,
        }
    }

    /// The text that has arrived and was not consumed yet.
    pub closed spec fn pending(&self) -> Seq<char> {
        self.buffer.pending()
    }

    /// The stream is cut into lines.
    pub closed spec fn well_formed(&self) -> bool {
        self.buffer.framing() == Framing::Lines
    }

    pub fn new() -> (stream: OllamaStream)
        ensures
            stream.well_formed(),
            stream.pending() == Seq::<char>::empty(),
            stream.gathered() == Gathered::nothing(),
    {
        let stream = OllamaStream {
            buffer: LineBuffer::new(Framing::Lines),
            content: String::new(),
            calls: Vec::new(),
            done: false,
        };
        assert(types::calls_view(stream.calls@) =~= Seq::empty());
        stream
    }

    /// Takes in a chunk of the body.
    pub fn feed(&mut self, chunk: &Vec<u8>)
        requires
            old(self).well_formed(),
        ensures
            final(self).well_formed(),
            final(self).gathered() == old(self).gathered(),
            final(self).pending() == old(self).pending() + outside::utf8_lossy(chunk@),
            vstd::utf8::valid_utf8(chunk@) ==> final(self).pending() == old(self).pending()
                + vstd::utf8::decode_utf8(chunk@),
    {
        self.buffer.feed(chunk);
    }

    /// Consumes the next line that is not blank: the JSON of a frame. `None`
    /// where the next chunk has to come first, and of a stream that has ended.
    pub fn next(&mut self) -> (payload: Option<String>)
        requires
            old(self).well_formed(),
        ensures
            final(self).well_formed(),
            final(self).gathered() == old(self).gathered(),
            old(self).gathered().done ==> payload is None && final(self).pending() == old(
                self,
            ).pending(),
            !old(self).gathered().done ==> ({
                let (next, rest) = framing::next_step(Framing::Lines, old(self).pending());
                &&& final(self).pending() == rest
                &&& match payload {
                    Some(payload) => next == framing::StepView::Payload(payload@),
                    None => next is Wait,
                }
            }),
    {
        if self.done {
            return None;
        }
        proof {
            lemma_lines_have_no_end(self.buffer.pending());
        }
        match self.buffer.next() {
            Step::Payload(payload) => Some(payload),
            _ => None,
        }
    }

    /// Adds a frame, with `uuids` picked for the ids of its tool calls, and
    /// reports the increments that it brings. A stream that has ended stays as
    /// it is.
    pub fn deliver_with_ids(&mut self, frame: &ChatResponse, uuids: &Vec<String>) -> (deltas: Vec<
        StreamDelta,
    >)
        requires
            old(self).well_formed(),
            uuids@.len() == calls_in(frame.message).len(),
            old(self).gathered().calls.len() + uuids@.len() <= usize::MAX,
        ensures
            final(self).well_formed(),
            final(self).pending() == old(self).pending(),
            final(self).gathered() == old(self).gathered().with_frame(
                *frame,
                text::texts(uuids@),
            ),
            types::deltas_view(deltas@) == old(self).gathered().frame_deltas(
                *frame,
                text::texts(uuids@),
            ),
    {
        let ghost start = self.gathered();
        let ghost picked = text::texts(uuids@);
        let mut deltas: Vec<StreamDelta> = Vec::new();
        if self.done {
            assert(types::deltas_view(deltas@) =~= Seq::empty());
            return deltas;
        }
        assert(start.content + Seq::<char>::empty() =~= start.content);
        if !frame.message.content.as_str().is_empty() {
            self.content.append(frame.message.content.as_str());
            deltas.push(StreamDelta::Content(frame.message.content.clone()));
        }
        assert(self.content@ =~= start.content + frame.message.content@);
        let ghost shown = types::deltas_view(deltas@);
        assert(shown =~= (if frame.message.content@.len() > 0 {
            seq![DeltaView::Content(frame.message.content@)]
        } else {
            Seq::empty()
        }));
        let ghost all = minted_calls(calls_in(frame.message), picked);
        assert(all.take(0) =~= Seq::empty());
        assert(shown + call_deltas(start.calls.len() as int, all.take(0)) =~= shown);
        assert(start.calls + all.take(0) =~= start.calls);
        if let Some(calls) = &frame.message.tool_calls {
            let mut at: usize = 0;
            let base: usize = self.calls.len();
            while at < calls.len()
                invariant
                    at <= calls.len(),
                    calls@ == calls_in(frame.message),
                    uuids@.len() == calls@.len(),
                    picked == text::texts(uuids@),
                    all == minted_calls(calls@, picked),
                    base == start.calls.len(),
                    base + uuids@.len() <= usize::MAX,
                    self.well_formed(),
                    self.pending() == old(self).pending(),
                    !self.done,
                    self.content@ == start.content + frame.message.content@,
                    types::calls_view(self.calls@) == start.calls + all.take(at as int),
                    types::deltas_view(deltas@) == shown + call_deltas(
                        start.calls.len() as int,
                        all.take(at as int),
                    ),
                decreases calls.len() - at,
            {
                let call = tool_call_with_id(&calls[at], uuids[at].as_str());
                let ghost before_calls = self.calls@;
                let ghost before = types::deltas_view(deltas@);
                let index: usize = base + at;
                deltas.push(
                    StreamDelta::ToolCallStart {
                        index,
                        id: call.id.clone(),
                        name: calls[at].function.name.clone(),
                    },
                );
                deltas.push(
                    StreamDelta::ToolCallArguments {
                        index,
                        arguments: json::print(&calls[at].function.arguments),
                    },
                );
                self.calls.push(call);
                proof {
                    let grown = all.take(at + 1);
                    assert(grown.drop_last() =~= all.take(at as int));
                    assert(grown.last() == call@);
                    assert(types::calls_view(self.calls@) =~= types::calls_view(before_calls).push(
                        call@,
                    ));
                    assert(types::calls_view(self.calls@) =~= start.calls + grown);
                    let tail = seq![
                        DeltaView::ToolCallStart {
                            index,
                            id: call@.id,
                            name: types::or_empty(call@.called_name()),
                        },
                        DeltaView::ToolCallArguments {
                            index,
                            arguments: types::or_empty(call@.called_arguments()),
                        },
                    ];
                    assert(call_deltas(base as int, grown) == call_deltas(
                        base as int,
                        grown.drop_last(),
                    ) + tail);
                    assert(types::deltas_view(deltas@) =~= before + tail);
                    assert(before + tail =~= shown + call_deltas(base as int, grown));
                }
                at = at + 1;
            }
        }
        assert(all.take(all.len() as int) =~= all);
        if frame.done {
            self.done = true;
            deltas.push(StreamDelta::Done { finish_reason: Some(String::from_str("stop")) });
        }
        assert(types::deltas_view(deltas@) =~= start.frame_deltas(*frame, picked));
        deltas
    }

    /// Adds a frame, with ids made up for its tool calls, and reports the
    /// increments that it brings.
    pub fn deliver(&mut self, frame: &ChatResponse) -> (deltas: Vec<StreamDelta>)
        requires
            old(self).well_formed(),
            old(self).gathered().calls.len() + calls_in(frame.message).len() <= usize::MAX,
        ensures
            final(self).well_formed(),
            final(self).pending() == old(self).pending(),
            exists|uuids: Seq<Seq<char>>|
                are_uuids(uuids, calls_in(frame.message).len()) && final(self).gathered() == old(
                    self,
                ).gathered().with_frame(*frame, uuids) && types::deltas_view(deltas@)
                    == #[trigger] old(self).gathered().frame_deltas(*frame, uuids),
    {
        let n = match &frame.message.tool_calls {
            Some(calls) => calls.len(),
            None => 0,
        };
        let uuids = mint_ids(n);
        self.deliver_with_ids(frame, &uuids)
    }

    /// Ends the stream.
    pub fn finish(self) -> (completion: CompletionResponse)
        requires
            self.well_formed(),
        ensures
            completion@ == self.gathered().completion(),
    {
        CompletionResponse {
            content: self.content,
            tool_calls: if self.calls.len() == 0 {
                None
            } else {
                Some(self.calls)
            },
            finish_reason: None,
            native_finish_reason: None,
            completion_tokens: None,
            upstream_provider: None,
            generation_id: None,
        }
    }
}

/// A stream of lines has no sentinel.
proof fn lemma_lines_have_no_end(buffer: Seq<char>)
    ensures
        !(framing::next_step(Framing::Lines, buffer).0 is End),
    decreases buffer.len(),
{
    text::lemma_until_bounds(buffer, text::feed());
    let n = text::until(buffer, text::feed()) as int;
    if n < buffer.len() && framing::line_step(
        Framing::Lines,
        text::trimmed(buffer.take(n)),
    ) is None {
        lemma_lines_have_no_end(buffer.skip(n + 1));
    }
}

/// The argument text of the call at `index`.
pub open spec fn arguments_at(calls: Seq<ToolCallView>, index: int) -> Seq<char> {
    if 0 <= index < calls.len() {
        types::or_empty(calls[index].called_arguments())
    } else {
        Seq::empty()
    }
}

proof fn lemma_call_deltas(base: int, calls: Seq<ToolCallView>, index: int)
    requires
        0 <= base,
        base + calls.len() <= usize::MAX,
    ensures
        assembly::shown_by(call_deltas(base, calls)) == Seq::<char>::empty(),
        assembly::closings_by(call_deltas(base, calls)) == 0,
        assembly::starts_by(call_deltas(base, calls), index) == (if base <= index < base
            + calls.len() {
            1nat
        } else {
            0nat
        }),
        assembly::arguments_by(call_deltas(base, calls), index) == arguments_at(
            calls,
            index - base,
        ),
    decreases calls.len(),
{
    if calls.len() > 0 {
        let early = call_deltas(base, calls.drop_last());
        let at = (base + calls.len() - 1) as usize;
        let call = calls.last();
        let tail = seq![
            DeltaView::ToolCallStart {
                index: at,
                id: call.id,
                name: types::or_empty(call.called_name()),
            },
            DeltaView::ToolCallArguments {
                index: at,
                arguments: types::or_empty(call.called_arguments()),
            },
        ];
        lemma_call_deltas(base, calls.drop_last(), index);
        assembly::lemma_by_concat(early, tail, index);
        reveal_with_fuel(assembly::shown_by, 3);
        reveal_with_fuel(assembly::arguments_by, 3);
        reveal_with_fuel(assembly::starts_by, 3);
        reveal_with_fuel(assembly::closings_by, 3);
        assert(assembly::shown_by(tail) =~= Seq::<char>::empty());
        assert(assembly::arguments_by(tail, index) =~= (if at == index {
            types::or_empty(call.called_arguments())
        } else {
            Seq::<char>::empty()
        }));
        assert(assembly::shown_by(early + tail) =~= Seq::<char>::empty());
        assert(assembly::arguments_by(early + tail, index) =~= arguments_at(calls, index - base));
    }
}

/// What one frame adds to the answer is what it streams: its text, and for
/// each new call, at the next free index, one announcement and its arguments.
/// Only the frame that ends the stream closes it.
pub proof fn lemma_answer_is_what_was_streamed(
    start: Gathered,
    frame: ChatResponse,
    uuids: Seq<Seq<char>>,
    index: int,
)
    requires
        start.calls.len() + calls_in(frame.message).len() <= usize::MAX,
    ensures
        ({
            let end = start.with_frame(frame, uuids);
            let deltas = start.frame_deltas(frame, uuids);
            &&& assembly::closings_by(deltas) == (if end.done && !start.done {
                1nat
            } else {
                0nat
            })
            &&& end.content == start.content + assembly::shown_by(deltas)
            &&& assembly::starts_by(deltas, index) == (if start.calls.len() <= index
                < end.calls.len() {
                1nat
            } else {
                0nat
            })
            &&& start.calls.len() <= index ==> arguments_at(end.calls, index)
                == assembly::arguments_by(deltas, index)
            &&& index < start.calls.len() ==> arguments_at(end.calls, index) == arguments_at(
                start.calls,
                index,
            )
        }),
{
    let base = start.calls.len() as int;
    let calls = minted_calls(calls_in(frame.message), uuids);
    let content = if frame.message.content@.len() > 0 {
        seq![DeltaView::Content(frame.message.content@)]
    } else {
        Seq::empty()
    };
    let done = if frame.done {
        seq![closing()]
    } else {
        Seq::empty()
    };
    let middle = call_deltas(base, calls);
    lemma_call_deltas(base, calls, index);
    assembly::lemma_by_concat(content, middle, index);
    assembly::lemma_by_concat(content + middle, done, index);
    reveal_with_fuel(assembly::shown_by, 2);
    reveal_with_fuel(assembly::arguments_by, 2);
    reveal_with_fuel(assembly::starts_by, 2);
    reveal_with_fuel(assembly::closings_by, 2);
    let deltas = start.frame_deltas(frame, uuids);
    let end = start.with_frame(frame, uuids);
    if start.done {
        assert(end.content =~= start.content + assembly::shown_by(deltas));
    } else {
        assert(assembly::shown_by(content) =~= frame.message.content@);
        assert(assembly::shown_by(done) =~= Seq::<char>::empty());
        assert(assembly::shown_by(deltas) =~= frame.message.content@);
        assert(assembly::arguments_by(content, index) =~= Seq::<char>::empty());
        assert(assembly::arguments_by(done, index) =~= Seq::<char>::empty());
        assert(assembly::arguments_by(deltas, index) =~= arguments_at(calls, index - base));
    }
}

impl Gathered {
    /// What has come once all of `frames` have, each with the ids picked for
    /// its tool calls.
    pub open spec fn with_frames(self, frames: Seq<(ChatResponse, Seq<Seq<char>>)>) -> Gathered
        decreases frames.len(),
    {
        if frames.len() == 0 {
            self
        } else {
            self.with_frames(frames.drop_last()).with_frame(frames.last().0, frames.last().1)
        }
    }

    /// The increments that `frames` bring.
    pub open spec fn frames_deltas(self, frames: Seq<(ChatResponse, Seq<Seq<char>>)>) -> Seq<
        DeltaView,
    >
        decreases frames.len(),
    {
        if frames.len() == 0 {
            Seq::empty()
        } else {
            self.frames_deltas(frames.drop_last()) + self.with_frames(
                frames.drop_last(),
            ).frame_deltas(frames.last().0, frames.last().1)
        }
    }
}

/// Whatever a stream brings, the frame that ends it closes it, exactly once and
/// with the last increment; without such a frame it is not closed.
pub proof fn lemma_closed_by_the_last_frame(frames: Seq<(ChatResponse, Seq<Seq<char>>)>)
    requires
        forall|n: int|
            0 <= n < frames.len() ==> (#[trigger] Gathered::nothing().with_frames(
                frames.take(n),
            )).calls.len() + calls_in(frames[n].0.message).len() <= usize::MAX,
    ensures
        ({
            let end = Gathered::nothing().with_frames(frames);
            let deltas = Gathered::nothing().frames_deltas(frames);
            &&& end.done ==> assembly::closings_by(deltas) == 1 && deltas.len() > 0
                && deltas.last() == closing()
            &&& !end.done ==> assembly::closings_by(deltas) == 0
        }),
    decreases frames.len(),
{
    if frames.len() > 0 {
        let before = frames.drop_last();
        assert forall|n: int| 0 <= n < before.len() implies (
        #[trigger] Gathered::nothing().with_frames(before.take(n))).calls.len() + calls_in(
            before[n].0.message,
        ).len() <= usize::MAX by {
            assert(before.take(n) =~= frames.take(n));
        }
        lemma_closed_by_the_last_frame(before);
        assert(frames.take(frames.len() - 1) =~= before);
        let mid = Gathered::nothing().with_frames(before);
        let early = Gathered::nothing().frames_deltas(before);
        let deltas = mid.frame_deltas(frames.last().0, frames.last().1);
        lemma_answer_is_what_was_streamed(mid, frames.last().0, frames.last().1, 0);
        assembly::lemma_by_concat(early, deltas, 0);
        if mid.done {
            assert(early + deltas =~= early);
        }
    }
}

// ==================== What frames add up to ====================

/// Whether `made` is the call that `asked` is, under the id made of `uuid`.
pub open spec fn is_call_made(made: ToolCallView, asked: ResponseToolCall, uuid: Seq<char>) -> bool {
    &&& made.id == "call_"@ + uuid
    &&& made.call_type == Some("function"@)
    &&& made.function matches Some(function)
    &&& function.0 == asked.function.name@
    &&& function.1 == json::text_of(asked.function.arguments@)
    &&& made.name is None
    &&& made.arguments is None
}

/// A frame adds its text and all of its tool calls, in order and behind those
/// that came before, each under an id of its own; and it ends the stream if it
/// says so. Once the stream has ended a frame adds nothing.
pub proof fn lemma_a_frame_adds_what_it_brings(
    start: Gathered,
    frame: ChatResponse,
    uuids: Seq<Seq<char>>,
)
    ensures
        ({
            let end = start.with_frame(frame, uuids);
            &&& start.done ==> end == start
            &&& !start.done ==> {
                &&& end.content == start.content + frame.message.content@
                &&& end.done == frame.done
                &&& forall|i: int| 0 <= i < start.calls.len() ==> end.calls[i] == start.calls[i]
                &&& match frame.message.tool_calls {
                    Some(calls) => {
                        &&& end.calls.len() == start.calls.len() + calls@.len()
                        &&& forall|k: int|
                            0 <= k < calls@.len() ==> is_call_made(
                                end.calls[start.calls.len() + k],
                                #[trigger] calls@[k],
                                uuids[k],
                            )
                    },
                    None => end.calls == start.calls,
                }
            }
        }),
{
    let end = start.with_frame(frame, uuids);
    if frame.message.tool_calls is None {
        assert(end.calls =~= start.calls || start.done);
    }
}

/// The increments of calls: each call is announced under its index, by its id
/// and its name, and directly behind that its arguments follow.
pub proof fn lemma_calls_are_forwarded_in_order(base: int, calls: Seq<ToolCallView>, i: int)
    requires
        0 <= base,
        base + calls.len() <= usize::MAX,
        0 <= i < calls.len(),
    ensures
        call_deltas(base, calls).len() == 2 * calls.len(),
        call_deltas(base, calls)[2 * i] == (DeltaView::ToolCallStart {
            index: (base + i) as usize,
            id: calls[i].id,
            name: types::or_empty(calls[i].called_name()),
        }),
        call_deltas(base, calls)[2 * i + 1] == (DeltaView::ToolCallArguments {
            index: (base + i) as usize,
            arguments: types::or_empty(calls[i].called_arguments()),
        }),
    decreases calls.len(),
{
    let early = calls.drop_last();
    if early.len() == 0 {
        assert(call_deltas(base, early).len() == 0);
    } else if i < early.len() {
        lemma_calls_are_forwarded_in_order(base, early, i);
    } else {
        lemma_calls_are_forwarded_in_order(base, early, 0);
    }
}

/// The increments of a frame: its text first, where it has any, its calls next,
/// and the end of the stream last, where it is the end.
pub proof fn lemma_a_frame_is_forwarded_in_order(
    start: Gathered,
    frame: ChatResponse,
    uuids: Seq<Seq<char>>,
)
    requires
        !start.done,
    ensures
        ({
            let deltas = start.frame_deltas(frame, uuids);
            let end = start.with_frame(frame, uuids);
            let calls = call_deltas(
                start.calls.len() as int,
                end.calls.skip(start.calls.len() as int),
            );
            let text = if frame.message.content@.len() > 0 {
                seq![DeltaView::Content(frame.message.content@)]
            } else {
                Seq::empty()
            };
            let last = if frame.done {
                seq![DeltaView::Done { finish_reason: Some("stop"@) }]
            } else {
                Seq::empty()
            };
            deltas == text + calls + last
        }),
{
    let end = start.with_frame(frame, uuids);
    assert(end.calls.skip(start.calls.len() as int) =~= minted_calls(
        calls_in(frame.message),
        uuids,
    ));
}

/// The text of the frames up to the one that ends the stream.
pub open spec fn text_before_end(frames: Seq<(ChatResponse, Seq<Seq<char>>)>) -> Seq<char>
    decreases frames.len(),
{
    if frames.len() == 0 {
        Seq::empty()
    } else {
        frames[0].0.message.content@ + if frames[0].0.done {
            Seq::empty()
        } else {
            text_before_end(frames.skip(1))
        }
    }
}

/// How many tool calls the frames up to the one that ends the stream bring.
pub open spec fn calls_before_end(frames: Seq<(ChatResponse, Seq<Seq<char>>)>) -> nat
    decreases frames.len(),
{
    if frames.len() == 0 {
        0
    } else {
        let here = match frames[0].0.message.tool_calls {
            Some(calls) => calls@.len(),
            None => 0,
        };
        here + if frames[0].0.done {
            0
        } else {
            calls_before_end(frames.skip(1))
        }
    }
}

proof fn lemma_frames_from_the_front(start: Gathered, frames: Seq<(ChatResponse, Seq<Seq<char>>)>)
    requires
        frames.len() > 0,
    ensures
        start.with_frames(frames) == start.with_frame(frames[0].0, frames[0].1).with_frames(
            frames.skip(1),
        ),
    decreases frames.len(),
{
    if frames.len() == 1 {
        reveal_with_fuel(Gathered::with_frames, 2);
        assert(frames.drop_last() =~= Seq::empty());
        assert(frames.skip(1) =~= Seq::empty());
    } else {
        lemma_frames_from_the_front(start, frames.drop_last());
        assert(frames.drop_last().skip(1) =~= frames.skip(1).drop_last());
        assert(frames.skip(1).last() == frames.last());
    }
}

proof fn lemma_frames_add_up(start: Gathered, frames: Seq<(ChatResponse, Seq<Seq<char>>)>)
    ensures
        start.done ==> start.with_frames(frames) == start,
        !start.done ==> start.with_frames(frames).content == start.content + text_before_end(frames)
            && start.with_frames(frames).calls.len() == start.calls.len() + calls_before_end(frames),
    decreases frames.len(),
{
    if frames.len() == 0 {
        assert(start.content + Seq::<char>::empty() =~= start.content);
    } else {
        lemma_frames_from_the_front(start, frames);
        let next = start.with_frame(frames[0].0, frames[0].1);
        lemma_a_frame_adds_what_it_brings(start, frames[0].0, frames[0].1);
        lemma_frames_add_up(next, frames.skip(1));
        if !start.done {
            assert(start.with_frames(frames).content =~= start.content + text_before_end(frames));
        }
    }
}

/// The completion of a stream holds the text and the tool calls of all frames up
/// to the one that ends it, and nothing of what stands behind that.
pub proof fn lemma_a_completion_is_its_frames(frames: Seq<(ChatResponse, Seq<Seq<char>>)>)
    ensures
        ({
            let end = Gathered::nothing().with_frames(frames);
            &&& end.completion().content == text_before_end(frames)
            &&& match end.completion().tool_calls {
                Some(calls) => calls == end.calls && calls.len() == calls_before_end(frames)
                    && calls.len() > 0,
                None => calls_before_end(frames) == 0,
            }
        }),
{
    lemma_frames_add_up(Gathered::nothing(), frames);
    let end = Gathered::nothing().with_frames(frames);
    assert(end.content =~= text_before_end(frames));
}

/// An answer that is not streamed is its text and all of its tool calls, in
/// order, each under an id of its own.
pub proof fn lemma_an_answer_is_read_in_full(message: ResponseMessage, uuids: Seq<Seq<char>>)
    ensures
        ({
            let completion = completion_in(message, uuids);
            &&& completion.content == message.content@
            &&& match (message.tool_calls, completion.tool_calls) {
                (Some(calls), Some(made)) => {
                    &&& made.len() == calls@.len()
                    &&& forall|k: int|
                        0 <= k < calls@.len() ==> is_call_made(
                            #[trigger] made[k],
                            calls@[k],
                            uuids[k],
                        )
                },
                (None, None) => true,
                _ => false,
            }
        }),
{
}

/// What goes over the wire is the message with all of its calls, and the
/// arguments of a call as the JSON that their text holds.
pub proof fn lemma_the_wire_carries_every_field(
    api: ApiMessage,
    message: MessageView,
    api_call: ApiToolCall,
    call: ToolCallView,
)
    ensures
        is_api_message(api, message) ==> {
            &&& api.role@ == message.role.name()
            &&& message.content matches Some(content) ==> api.content@ == content
            &&& message.content is None ==> api.content@.len() == 0
            &&& api.tool_calls is Some <==> message.tool_calls is Some
            &&& api.tool_calls matches Some(list) ==> list@.len() == message.tool_calls->0.len()
                && forall|i: int|
                0 <= i < list@.len() ==> is_api_call(
                    #[trigger] list@[i],
                    message.tool_calls->0[i],
                )
        },
        is_api_call(api_call, call) ==> {
            &&& call.function matches Some(function) ==> {
                &&& api_call.function.name@ == function.0
                &&& outside::json_value(function.1) matches Some(tree)
                    ==> api_call.function.arguments@ == tree
                &&& outside::json_value(function.1) is None ==> api_call.function.arguments@
                    == JsonTree::Object(Map::empty())
            }
        },
{
}

} // verus!
