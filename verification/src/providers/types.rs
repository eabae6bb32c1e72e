//! Messages, tool calls and completions, whatever provider they come from.

use crate::json::Json;
use crate::json::JsonTree;
use crate::text;
use vstd::prelude::*;

verus! {

/// Who a message is from.
#[derive(Debug, Clone, Copy, PartialEq, Eq, Structural)]
pub enum MessageRole {
    System,
    User,
    Assistant,
    Tool,
}

impl MessageRole {
    /// The name of the role on the wire.
    pub open spec fn name(self) -> Seq<char> {
        match self {
            MessageRole::System => "system"@,
            MessageRole::User => "user"@,
            MessageRole::Assistant => "assistant"@,
            MessageRole::Tool => "tool"@,
        }
    }

    pub fn as_str(self) -> (name: &'static str)
        ensures
            name@ == self.name(),
            self == MessageRole::System ==> name@ == "system"@,
            self == MessageRole::User ==> name@ == "user"@,
            self == MessageRole::Assistant ==> name@ == "assistant"@,
            self == MessageRole::Tool ==> name@ == "tool"@,
    {
        match self {
            MessageRole::System => "system",
            MessageRole::User => "user",
            MessageRole::Assistant => "assistant",
            MessageRole::Tool => "tool",
        }
    }
}

/// The function that a tool call names, with its arguments as JSON text.
#[derive(Debug, PartialEq)]
pub struct ToolCallFunction {
    pub name: String,
    pub arguments: String,
}

/// A model's request to call a tool.
#[derive(Debug, PartialEq)]
pub struct ToolCall {
    pub id: String,
    pub call_type: Option<String>,
    pub function: Option<ToolCallFunction>,
    pub name: Option<String>,
    pub arguments: Option<String>,
}

/// What a tool call asks for.
pub struct ToolCallView {
    pub id: Seq<char>,
    pub call_type: Option<Seq<char>>,
    pub function: Option<(Seq<char>, Seq<char>)>,
    pub name: Option<Seq<char>>,
    pub arguments: Option<Seq<char>>,
}

impl View for ToolCall {
    type V = ToolCallView;

    open spec fn view(&self) -> ToolCallView {
        ToolCallView {
            id: self.id@,
            call_type: text::optional(self.call_type),
            function: match self.function {
                Some(function) => Some((function.name@, function.arguments@)),
                None => None,
            },
            name: text::optional(self.name),
            arguments: text::optional(self.arguments),
        }
    }
}

impl ToolCallView {
    /// The name of the tool, wherever the call gives it.
    pub open spec fn called_name(self) -> Option<Seq<char>> {
        match self.function {
            Some(function) => Some(function.0),
            None => self.name,
        }
    }

    /// The arguments of the call, wherever it gives them.
    pub open spec fn called_arguments(self) -> Option<Seq<char>> {
        match self.function {
            Some(function) => Some(function.1),
            None => self.arguments,
        }
    }
}

/// The views of a list of tool calls.
pub open spec fn calls_view(calls: Seq<ToolCall>) -> Seq<ToolCallView> {
    Seq::new(calls.len(), |i: int| calls[i]@)
}

/// A text, or the empty text where there is none.
pub open spec fn or_empty(value: Option<Seq<char>>) -> Seq<char> {
    match value {
        Some(value) => value,
        None => Seq::empty(),
    }
}

impl ToolCall {
    pub fn get_name(&self) -> (name: Option<&str>)
        ensures
            match name {
                Some(name) => self@.called_name() == Some(name@),
                None => self@.called_name() is None,
            },
    {
        match &self.function {
            Some(function) => Some(function.name.as_str()),
            None => match &self.name {
                Some(name) => Some(name.as_str()),
                None => None,
            },
        }
    }

    pub fn get_arguments(&self) -> (arguments: Option<&str>)
        ensures
            match arguments {
                Some(arguments) => self@.called_arguments() == Some(arguments@),
                None => self@.called_arguments() is None,
            },
    {
        match &self.function {
            Some(function) => Some(function.arguments.as_str()),
            None => match &self.arguments {
                Some(arguments) => Some(arguments.as_str()),
                None => None,
            },
        }
    }

    /// The name of the tool, empty where the call gives none.
    pub fn name_or_empty(&self) -> (name: String)
        ensures
            name@ == or_empty(self@.called_name()),
    {
        match self.get_name() {
            Some(name) => name.to_owned(),
            None => String::new(),
        }
    }

    /// The arguments of the call, empty where it gives none.
    pub fn arguments_or_empty(&self) -> (arguments: String)
        ensures
            arguments@ == or_empty(self@.called_arguments()),
    {
        match self.get_arguments() {
            Some(arguments) => arguments.to_owned(),
            None => String::new(),
        }
    }
}

impl Clone for ToolCall {
    fn clone(&self) -> (copy: Self)
        ensures
            copy@ == self@,
    {
        ToolCall {
            id: self.id.clone(),
            call_type: text::copy_optional(&self.call_type),
            function: match &self.function {
                Some(function) => Some(
                    ToolCallFunction {
                        name: function.name.clone(),
                        arguments: function.arguments.clone(),
                    },
                ),
                None => None,
            },
            name: text::copy_optional(&self.name),
            arguments: text::copy_optional(&self.arguments),
        }
    }
}

/// Copies a list of tool calls.
pub fn copy_calls(calls: &Vec<ToolCall>) -> (copy: Vec<ToolCall>)
    ensures
        calls_view(copy@) == calls_view(calls@),
{
    let mut copy: Vec<ToolCall> = Vec::new();
    let mut at: usize = 0;
    while at < calls.len()
        invariant
            at <= calls.len(),
            copy.len() == at,
            forall|i: int| 0 <= i < at ==> (#[trigger] copy@[i])@ == calls@[i]@,
        decreases calls.len() - at,
    {
        copy.push(calls[at].clone());
        at = at + 1;
    }
    assert(calls_view(copy@) =~= calls_view(calls@));
    copy
}

/// One message of a conversation with a model.
#[derive(Debug, PartialEq)]
pub struct Message {
    pub role: MessageRole,
    pub content: Option<String>,
    pub tool_calls: Option<Vec<ToolCall>>,
    pub tool_call_id: Option<String>,
    pub name: Option<String>,
}

/// What a message says.
pub struct MessageView {
    pub role: MessageRole,
    pub content: Option<Seq<char>>,
    pub tool_calls: Option<Seq<ToolCallView>>,
    pub tool_call_id: Option<Seq<char>>,
    pub name: Option<Seq<char>>,
}

/// The view of an optional list of tool calls.
pub open spec fn optional_calls(calls: Option<Vec<ToolCall>>) -> Option<Seq<ToolCallView>> {
    match calls {
        Some(calls) => Some(calls_view(calls@)),
        None => None,
    }
}

impl View for Message {
    type V = MessageView;

    open spec fn view(&self) -> MessageView {
        MessageView {
            role: self.role,
            content: text::optional(self.content),
            tool_calls: optional_calls(self.tool_calls),
            tool_call_id: text::optional(self.tool_call_id),
            name: text::optional(self.name),
        }
    }
}

/// The views of a list of messages.
pub open spec fn messages_view(messages: Seq<Message>) -> Seq<MessageView> {
    Seq::new(messages.len(), |i: int| messages[i]@)
}

impl MessageView {
    /// A message of `role` that holds only text.
    pub open spec fn plain(role: MessageRole, content: Seq<char>) -> MessageView {
        MessageView {
            role,
            content: Some(content),
            tool_calls: None,
            tool_call_id: None,
            name: None,
        }
    }

    /// The answer to the tool call `id`.
    pub open spec fn tool_result(id: Seq<char>, content: Seq<char>) -> MessageView {
        MessageView {
            role: MessageRole::Tool,
            content: Some(content),
            tool_calls: None,
            tool_call_id: Some(id),
            name: None,
        }
    }

    /// A model's turn that asks for tools, with the text it said alongside.
    pub open spec fn tool_request(content: Seq<char>, calls: Seq<ToolCallView>) -> MessageView {
        MessageView {
            role: MessageRole::Assistant,
            content: if content.len() == 0 {
                None
            } else {
                Some(content)
            },
            tool_calls: Some(calls),
            tool_call_id: None,
            name: None,
        }
    }
}

impl Message {
    fn plain(role: MessageRole, content: &str) -> (message: Message)
        ensures
            message@ == MessageView::plain(role, content@),
    {
        Message {
            role,
            content: Some(content.to_owned()),
            tool_calls: None,
            tool_call_id: None,
            name: None,
        }
    }

    pub fn system(content: &str) -> (message: Message)
        ensures
            message@ == MessageView::plain(MessageRole::System, content@),
    {
        Message::plain(MessageRole::System, content)
    }

    pub fn user(content: &str) -> (message: Message)
        ensures
            message@ == MessageView::plain(MessageRole::User, content@),
    {
        Message::plain(MessageRole::User, content)
    }

    pub fn assistant(content: &str) -> (message: Message)
        ensures
            message@ == MessageView::plain(MessageRole::Assistant, content@),
    {
        Message::plain(MessageRole::Assistant, content)
    }

    pub fn assistant_with_tool_calls(tool_calls: Vec<ToolCall>) -> (message: Message)
        ensures
            message@ == MessageView::tool_request(Seq::empty(), calls_view(tool_calls@)),
    {
        Message {
            role: MessageRole::Assistant,
            content: None,
            tool_calls: Some(tool_calls),
            tool_call_id: None,
            name: None,
        }
    }

    pub fn tool_result(tool_call_id: &str, content: &str) -> (message: Message)
        ensures
            message@ == MessageView::tool_result(tool_call_id@, content@),
    {
        Message {
            role: MessageRole::Tool,
            content: Some(content.to_owned()),
            tool_calls: None,
            tool_call_id: Some(tool_call_id.to_owned()),
            name: None,
        }
    }
}

impl Clone for Message {
    fn clone(&self) -> (copy: Self)
        ensures
            copy@ == self@,
    {
        Message {
            role: self.role,
            content: text::copy_optional(&self.content),
            tool_calls: match &self.tool_calls {
                Some(calls) => Some(copy_calls(calls)),
                None => None,
            },
            tool_call_id: text::copy_optional(&self.tool_call_id),
            name: text::copy_optional(&self.name),
        }
    }
}

/// Appends copies of the messages at positions `from..to`.
pub fn append_messages(list: &mut Vec<Message>, messages: &Vec<Message>, from: usize, to: usize)
    requires
        from <= to <= messages.len(),
    ensures
        messages_view(final(list)@) == messages_view(old(list)@) + messages_view(
            messages@,
        ).subrange(from as int, to as int),
{
    let ghost start = list@;
    let mut at: usize = from;
    assert(messages_view(list@) + messages_view(messages@).subrange(from as int, from as int)
        =~= messages_view(list@));
    while at < to
        invariant
            from <= at <= to <= messages.len(),
            messages_view(list@) == messages_view(start) + messages_view(messages@).subrange(
                from as int,
                at as int,
            ),
        decreases to - at,
    {
        let ghost before = list@;
        list.push(messages[at].clone());
        proof {
            assert(messages_view(list@) =~= messages_view(before).push(messages@[at as int]@));
            assert(messages_view(list@) =~= messages_view(start) + messages_view(
                messages@,
            ).subrange(from as int, at + 1));
        }
        at = at + 1;
    }
}

/// Copies a list of messages.
pub fn copy_messages(messages: &Vec<Message>) -> (copy: Vec<Message>)
    ensures
        messages_view(copy@) == messages_view(messages@),
{
    let mut copy: Vec<Message> = Vec::new();
    append_messages(&mut copy, messages, 0, messages.len());
    assert(messages_view(copy@) =~= messages_view(messages@));
    copy
}

/// A tool as the model is told of it: name, description and the JSON schema of
/// its arguments.
#[derive(Debug, PartialEq)]
pub struct ToolDefinition {
    pub name: String,
    pub description: String,
    pub parameters: Json,
}

/// What a model is told of a tool.
pub struct ToolDefinitionView {
    pub name: Seq<char>,
    pub description: Seq<char>,
    pub parameters: JsonTree,
}

impl View for ToolDefinition {
    type V = ToolDefinitionView;

    open spec fn view(&self) -> ToolDefinitionView {
        ToolDefinitionView {
            name: self.name@,
            description: self.description@,
            parameters: self.parameters@,
        }
    }
}

/// The views of a list of tools.
pub open spec fn tools_view(tools: Seq<ToolDefinition>) -> Seq<ToolDefinitionView> {
    Seq::new(tools.len(), |i: int| tools[i]@)
}

impl ToolDefinition {
    pub fn new(name: &str, description: &str, parameters: Json) -> (tool: ToolDefinition)
        ensures
            tool@ == (ToolDefinitionView {
                name: name@,
                description: description@,
                parameters: parameters@,
            }),
    {
        ToolDefinition { name: name.to_owned(), description: description.to_owned(), parameters }
    }
}

impl Clone for ToolDefinition {
    fn clone(&self) -> (copy: Self)
        ensures
            copy@ == self@,
    {
        ToolDefinition {
            name: self.name.clone(),
            description: self.description.clone(),
            parameters: self.parameters.clone(),
        }
    }
}

/// One increment of a streamed completion.
#[derive(Debug, PartialEq)]
pub enum StreamDelta {
    Content(String),
    ToolCallStart { index: usize, id: String, name: String },
    ToolCallArguments { index: usize, arguments: String },
    Done { finish_reason: Option<String> },
}

/// What an increment of a streamed completion brings.
pub enum DeltaView {
    Content(Seq<char>),
    ToolCallStart { index: usize, id: Seq<char>, name: Seq<char> },
    ToolCallArguments { index: usize, arguments: Seq<char> },
    Done { finish_reason: Option<Seq<char>> },
}

impl View for StreamDelta {
    type V = DeltaView;

    open spec fn view(&self) -> DeltaView {
        match self {
            StreamDelta::Content(text) => DeltaView::Content(text@),
            StreamDelta::ToolCallStart { index, id, name } => DeltaView::ToolCallStart {
                index: *index,
                id: id@,
                name: name@,
            },
            StreamDelta::ToolCallArguments { index, arguments } => DeltaView::ToolCallArguments {
                index: *index,
                arguments: arguments@,
            },
            StreamDelta::Done { finish_reason } => DeltaView::Done {
                finish_reason: text::optional(*finish_reason),
            },
        }
    }
}

/// The views of a list of increments.
pub open spec fn deltas_view(deltas: Seq<StreamDelta>) -> Seq<DeltaView> {
    Seq::new(deltas.len(), |i: int| deltas[i]@)
}

/// A completion, streamed or not.
#[derive(Debug, PartialEq)]
pub struct CompletionResponse {
    pub content: String,
    pub tool_calls: Option<Vec<ToolCall>>,
    pub finish_reason: Option<String>,
    pub native_finish_reason: Option<String>,
    pub completion_tokens: Option<u32>,
    pub upstream_provider: Option<String>,
    pub generation_id: Option<String>,
}

/// What a completion says.
pub struct CompletionView {
    pub content: Seq<char>,
    pub tool_calls: Option<Seq<ToolCallView>>,
    pub finish_reason: Option<Seq<char>>,
    pub native_finish_reason: Option<Seq<char>>,
    pub completion_tokens: Option<u32>,
    pub upstream_provider: Option<Seq<char>>,
    pub generation_id: Option<Seq<char>>,
}

impl View for CompletionResponse {
    type V = CompletionView;

    open spec fn view(&self) -> CompletionView {
        CompletionView {
            content: self.content@,
            tool_calls: optional_calls(self.tool_calls),
            finish_reason: text::optional(self.finish_reason),
            native_finish_reason: text::optional(self.native_finish_reason),
            completion_tokens: self.completion_tokens,
            upstream_provider: text::optional(self.upstream_provider),
            generation_id: text::optional(self.generation_id),
        }
    }
}

/// A JSON schema that an answer has to follow.
#[derive(Debug, PartialEq)]
pub struct StructuredOutputSchema {
    pub name: String,
    pub strict: bool,
    pub schema: Json,
}

/// How an answer is to be generated.
#[derive(Debug, PartialEq)]
pub struct GenerationParams {
    /// The temperature, as the bits of a number of 32 bits with a binary point.
    pub temperature: Option<u32>,
    pub max_tokens: Option<u32>,
    pub structured_output: Option<StructuredOutputSchema>,
    pub minimize_reasoning: bool,
}

/// A model and how it is to generate.
#[derive(Debug, PartialEq)]
pub struct LlmConfig {
    pub model: String,
    pub params: GenerationParams,
}

/// What is known of the parameters that a model supports.
#[derive(Debug, Clone, Copy, PartialEq, Eq, Structural)]
pub struct ParamSupport {
    /// Whether temperature is supported, or assumed to be.
    pub temperature: bool,
    /// Whether temperature is known to be supported.
    pub temperature_known: bool,
    /// Whether reasoning is supported, or assumed to be.
    pub reasoning: bool,
}

// ==================== What a view shows ====================

/// Whether an optional text is shown as it is.
pub open spec fn shows_text(shown: Option<Seq<char>>, value: Option<String>) -> bool {
    match (shown, value) {
        (Some(shown), Some(value)) => shown == value@,
        (None, None) => true,
        _ => false,
    }
}

/// A tool call is shown field by field, and its name and its arguments are
/// those of its function where it has one, else its own.
pub proof fn lemma_a_call_is_shown_as_it_is(call: ToolCall)
    ensures
        call@.id == call.id@,
        shows_text(call@.call_type, call.call_type),
        shows_text(call@.name, call.name),
        shows_text(call@.arguments, call.arguments),
        call@.function is Some <==> call.function is Some,
        call.function matches Some(function) ==> call@.function == Some(
            (function.name@, function.arguments@),
        ),
        call.function matches Some(function) ==> call@.called_name() == Some(function.name@)
            && call@.called_arguments() == Some(function.arguments@),
        call.function is None ==> call@.called_name() == call@.name && call@.called_arguments()
            == call@.arguments,
        or_empty(None).len() == 0,
        or_empty(Some(call@.id)) == call@.id,
{
}

/// A message is shown field by field, with all of its tool calls in order.
pub proof fn lemma_a_message_is_shown_as_it_is(message: Message)
    ensures
        message@.role == message.role,
        shows_text(message@.content, message.content),
        shows_text(message@.tool_call_id, message.tool_call_id),
        shows_text(message@.name, message.name),
        message@.tool_calls is Some <==> message.tool_calls is Some,
        message.tool_calls matches Some(calls) ==> {
            &&& message@.tool_calls->0.len() == calls@.len()
            &&& forall|i: int|
                0 <= i < calls@.len() ==> (#[trigger] message@.tool_calls->0[i]) == calls@[i]@
        },
{
}

/// A completion is shown field by field.
pub proof fn lemma_a_completion_is_shown_as_it_is(completion: CompletionResponse)
    ensures
        completion@.content == completion.content@,
        shows_text(completion@.finish_reason, completion.finish_reason),
        shows_text(completion@.native_finish_reason, completion.native_finish_reason),
        completion@.completion_tokens == completion.completion_tokens,
        shows_text(completion@.upstream_provider, completion.upstream_provider),
        shows_text(completion@.generation_id, completion.generation_id),
        completion@.tool_calls is Some <==> completion.tool_calls is Some,
        completion.tool_calls matches Some(calls) ==> {
            &&& completion@.tool_calls->0.len() == calls@.len()
            &&& forall|i: int|
                0 <= i < calls@.len() ==> (#[trigger] completion@.tool_calls->0[i]) == calls@[i]@
        },
{
}

/// The parts of a list are shown one by one, in order.
pub proof fn lemma_lists_are_shown_in_order(
    messages: Seq<Message>,
    calls: Seq<ToolCall>,
    tools: Seq<ToolDefinition>,
    deltas: Seq<StreamDelta>,
    i: int,
)
    ensures
        messages_view(messages).len() == messages.len(),
        0 <= i < messages.len() ==> messages_view(messages)[i] == messages[i]@,
        calls_view(calls).len() == calls.len(),
        0 <= i < calls.len() ==> calls_view(calls)[i] == calls[i]@,
        tools_view(tools).len() == tools.len(),
        0 <= i < tools.len() ==> {
            &&& tools_view(tools)[i].name == tools[i].name@
            &&& tools_view(tools)[i].description == tools[i].description@
            &&& tools_view(tools)[i].parameters == tools[i].parameters@
        },
        deltas_view(deltas).len() == deltas.len(),
        0 <= i < deltas.len() ==> match deltas[i] {
            StreamDelta::Content(text) => deltas_view(deltas)[i] == DeltaView::Content(text@),
            StreamDelta::ToolCallStart { index, id, name } => deltas_view(deltas)[i] == (
            DeltaView::ToolCallStart { index, id: id@, name: name@ }),
            StreamDelta::ToolCallArguments { index, arguments } => deltas_view(deltas)[i] == (
            DeltaView::ToolCallArguments { index, arguments: arguments@ }),
            StreamDelta::Done { finish_reason } => deltas_view(deltas)[i] matches DeltaView::Done {
                finish_reason: shown,
            } && shows_text(shown, finish_reason),
        },
{
}

/// What the messages of each kind hold: who they are from, what they say, which
/// call they answer and which calls they ask for, and nothing else.
pub proof fn lemma_messages_by_kind(
    role: MessageRole,
    id: Seq<char>,
    content: Seq<char>,
    calls: Seq<ToolCallView>,
)
    ensures
        ({
            let plain = MessageView::plain(role, content);
            let result = MessageView::tool_result(id, content);
            let request = MessageView::tool_request(content, calls);
            &&& plain.role == role && plain.content == Some(content) && plain.tool_calls is None
                && plain.tool_call_id is None && plain.name is None
            &&& result.role == MessageRole::Tool && result.content == Some(content)
                && result.tool_calls is None && result.tool_call_id == Some(id) && result.name
                is None
            &&& request.role == MessageRole::Assistant && request.tool_calls == Some(calls)
                && request.tool_call_id is None && request.name is None
            &&& content.len() > 0 ==> request.content == Some(content)
            &&& content.len() == 0 ==> request.content is None
        }),
{
}

} // verus!
