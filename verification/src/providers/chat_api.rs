//! The wire format that the OpenAI-shaped providers share: what a request is
//! made of, what an answer holds, and how a streamed answer is put together.

use crate::json::Json;
use crate::providers::error::ProviderError;
use crate::providers::types;
use crate::providers::types::Message;
use crate::providers::types::MessageView;
use crate::providers::types::StructuredOutputSchema;
use crate::providers::types::ToolCall;
use crate::providers::types::ToolCallFunction;
use crate::providers::types::ToolCallView;
use crate::providers::types::ToolDefinition;
use crate::providers::types::ToolDefinitionView;
use crate::text;
use vstd::prelude::*;

verus! {

// ==================== Requests ====================

#[derive(Debug, PartialEq)]
pub struct ApiFunctionCall {
    pub name: String,
    pub arguments: String,
}

#[derive(Debug, PartialEq)]
pub struct ApiToolCall {
    pub id: String,
    pub call_type: String,
    pub function: ApiFunctionCall,
}

#[derive(Debug, PartialEq)]
pub struct ApiMessage {
    pub role: String,
    pub content: Option<String>,
    pub tool_calls: Option<Vec<ApiToolCall>>,
    pub tool_call_id: Option<String>,
    pub name: Option<String>,
}

#[derive(Debug, PartialEq)]
pub struct ApiFunctionDef {
    pub name: String,
    pub description: String,
    pub parameters: Json,
}

#[derive(Debug, PartialEq)]
pub struct ApiTool {
    pub tool_type: String,
    pub function: ApiFunctionDef,
}

#[derive(Debug, PartialEq)]
pub struct JsonSchemaWrapper {
    pub name: String,
    pub strict: bool,
    pub schema: Json,
}

#[derive(Debug, PartialEq)]
pub struct ResponseFormat {
    pub format_type: String,
    pub json_schema: Option<JsonSchemaWrapper>,
}

/// Whether `api` is `call` on the wire. A call without a type is a function
/// call; a name or arguments that it does not give are empty.
pub open spec fn is_api_call(api: ApiToolCall, call: ToolCallView) -> bool {
    &&& api.id@ == call.id
    &&& api.call_type@ == match call.call_type {
        Some(call_type) => call_type,
        None => "function"@,
    }
    &&& api.function.name@ == types::or_empty(call.called_name())
    &&& api.function.arguments@ == types::or_empty(call.called_arguments())
}

/// Whether `api` is `message` on the wire.
pub open spec fn is_api_message(api: ApiMessage, message: MessageView) -> bool {
    &&& api.role@ == message.role.name()
    &&& text::optional(api.content) == message.content
    &&& match (api.tool_calls, message.tool_calls) {
        (Some(api_calls), Some(calls)) => api_calls@.len() == calls.len() && forall|i: int|
            0 <= i < calls.len() ==> is_api_call(#[trigger] api_calls@[i], calls[i]),
        (None, None) => true,
        _ => false,
    }
    &&& text::optional(api.tool_call_id) == message.tool_call_id
    &&& text::optional(api.name) == message.name
}

/// Whether `api` are `messages` on the wire, one for one.
pub open spec fn are_api_messages(api: Seq<ApiMessage>, messages: Seq<MessageView>) -> bool {
    api.len() == messages.len() && forall|i: int|
        0 <= i < messages.len() ==> is_api_message(#[trigger] api[i], messages[i])
}

/// Whether `api` is `tool` on the wire.
pub open spec fn is_api_tool(api: ApiTool, tool: ToolDefinitionView) -> bool {
    &&& api.tool_type@ == "function"@
    &&& api.function.name@ == tool.name
    &&& api.function.description@ == tool.description
    &&& api.function.parameters@ == tool.parameters
}

/// Whether `api` are `tools` on the wire, one for one; no tools are no list.
pub open spec fn are_api_tools(api: Option<Vec<ApiTool>>, tools: Seq<ToolDefinitionView>) -> bool {
    match api {
        Some(api) => tools.len() > 0 && api@.len() == tools.len() && forall|i: int|
            0 <= i < tools.len() ==> is_api_tool(#[trigger] api@[i], tools[i]),
        None => tools.len() == 0,
    }
}

/// Whether `format` asks for an answer that follows `schema`.
pub open spec fn is_response_format(
    format: Option<ResponseFormat>,
    schema: Option<StructuredOutputSchema>,
) -> bool {
    match schema {
        Some(schema) => {
            &&& format matches Some(format)
            &&& format.format_type@ == "json_schema"@
            &&& format.json_schema matches Some(wrapper)
            &&& wrapper.name@ == schema.name@
            &&& wrapper.strict == schema.strict
            &&& wrapper.schema@ == schema.schema@
        },
        None => format is None,
    }
}

pub fn convert_call(call: &ToolCall) -> (api: ApiToolCall)
    ensures
        is_api_call(api, call@),
        api.id@ == call.id@,
        api.call_type@ == (match call.call_type {
            Some(call_type) => call_type@,
            None => "function"@,
        }),
        call.function matches Some(function) ==> api.function.name@ == function.name@
            && api.function.arguments@ == function.arguments@,
        call.function is None ==> api.function.name@ == types::or_empty(text::optional(call.name))
            && api.function.arguments@ == types::or_empty(text::optional(call.arguments)),
{
    ApiToolCall {
        id: call.id.clone(),
        call_type: match &call.call_type {
            Some(call_type) => call_type.clone(),
            None => String::from_str("function"),
        },
        function: ApiFunctionCall {
            name: call.name_or_empty(),
            arguments: call.arguments_or_empty(),
        },
    }
}

pub fn convert_message(message: &Message) -> (api: ApiMessage)
    ensures
        is_api_message(api, message@),
        api.role@ == message.role.name(),
        text::optional(api.content) == text::optional(message.content),
        text::optional(api.tool_call_id) == text::optional(message.tool_call_id),
        text::optional(api.name) == text::optional(message.name),
        api.tool_calls is Some <==> message.tool_calls is Some,
        message.tool_calls matches Some(calls) ==> api.tool_calls->0@.len() == calls@.len()
            && forall|i: int|
            0 <= i < calls@.len() ==> {
                &&& (#[trigger] api.tool_calls->0@[i]).id@ == calls@[i].id@
                &&& is_api_call(api.tool_calls->0@[i], calls@[i]@)
            },
{
    let tool_calls = match &message.tool_calls {
        Some(calls) => {
            let mut api_calls: Vec<ApiToolCall> = Vec::new();
            let mut at: usize = 0;
            while at < calls.len()
                invariant
                    at <= calls.len(),
                    api_calls.len() == at,
                    forall|i: int| 0 <= i < at ==> is_api_call(#[trigger] api_calls@[i], calls@[i]@),
                decreases calls.len() - at,
            {
                api_calls.push(convert_call(&calls[at]));
                at = at + 1;
            }
            Some(api_calls)
        },
        None => None,
    };
    ApiMessage {
        role: message.role.as_str().to_owned(),
        content: text::copy_optional(&message.content),
        tool_calls,
        tool_call_id: text::copy_optional(&message.tool_call_id),
        name: text::copy_optional(&message.name),
    }
}

pub fn convert_messages(messages: &Vec<Message>) -> (api: Vec<ApiMessage>)
    ensures
        are_api_messages(api@, types::messages_view(messages@)),
        api@.len() == messages@.len(),
        forall|i: int| 0 <= i < api@.len() ==> is_api_message(#[trigger] api@[i], messages@[i]@),
{
    let mut api: Vec<ApiMessage> = Vec::new();
    let mut at: usize = 0;
    while at < messages.len()
        invariant
            at <= messages.len(),
            api.len() == at,
            forall|i: int| 0 <= i < at ==> is_api_message(#[trigger] api@[i], messages@[i]@),
        decreases messages.len() - at,
    {
        api.push(convert_message(&messages[at]));
        at = at + 1;
    }
    api
}

pub fn convert_tool(tool: &ToolDefinition) -> (api: ApiTool)
    ensures
        is_api_tool(api, tool@),
        api.tool_type@ == "function"@,
        api.function.name@ == tool.name@,
        api.function.description@ == tool.description@,
        api.function.parameters@ == tool.parameters@,
{
    ApiTool {
        tool_type: String::from_str("function"),
        function: ApiFunctionDef {
            name: tool.name.clone(),
            description: tool.description.clone(),
            parameters: tool.parameters.clone(),
        },
    }
}

pub fn convert_tools(tools: &Vec<ToolDefinition>) -> (api: Option<Vec<ApiTool>>)
    ensures
        are_api_tools(api, types::tools_view(tools@)),
        api is Some <==> tools@.len() > 0,
        api matches Some(list) ==> list@.len() == tools@.len() && forall|i: int|
            0 <= i < list@.len() ==> is_api_tool(#[trigger] list@[i], tools@[i]@),
{
    if tools.len() == 0 {
        return None;
    }
    let mut api: Vec<ApiTool> = Vec::new();
    let mut at: usize = 0;
    while at < tools.len()
        invariant
            at <= tools.len(),
            api.len() == at,
            forall|i: int| 0 <= i < at ==> is_api_tool(#[trigger] api@[i], tools@[i]@),
        decreases tools.len() - at,
    {
        api.push(convert_tool(&tools[at]));
        at = at + 1;
    }
    Some(api)
}

pub fn response_format(schema: &Option<StructuredOutputSchema>) -> (format: Option<ResponseFormat>)
    ensures
        is_response_format(format, *schema),
        format is Some <==> schema is Some,
        format matches Some(format) ==> format.format_type@ == "json_schema"@ && (
        format.json_schema matches Some(wrapper) && wrapper.name@ == schema->0.name@
            && wrapper.strict == schema->0.strict && wrapper.schema@ == schema->0.schema@),
{
    match schema {
        Some(schema) => Some(
            ResponseFormat {
                format_type: String::from_str("json_schema"),
                json_schema: Some(
                    JsonSchemaWrapper {
                        name: schema.name.clone(),
                        strict: schema.strict,
                        schema: schema.schema.clone(),
                    },
                ),
            },
        ),
        None => None,
    }
}

// ==================== Answers ====================

#[derive(Debug, PartialEq)]
pub struct ResponseFunctionCall {
    pub name: String,
    pub arguments: String,
}

#[derive(Debug, PartialEq)]
pub struct ResponseToolCall {
    pub id: String,
    pub call_type: String,
    pub function: ResponseFunctionCall,
}

/// A tool call as the wire spells it out.
pub open spec fn full_call(
    id: Seq<char>,
    call_type: Seq<char>,
    name: Seq<char>,
    arguments: Seq<char>,
) -> ToolCallView {
    ToolCallView {
        id,
        call_type: Some(call_type),
        function: Some((name, arguments)),
        name: None,
        arguments: None,
    }
}

/// The tool call that the wire gives.
pub open spec fn wire_call(call: ResponseToolCall) -> ToolCallView {
    full_call(call.id@, call.call_type@, call.function.name@, call.function.arguments@)
}

/// The tool calls that the wire gives, in order.
pub open spec fn wire_calls(calls: Option<Vec<ResponseToolCall>>) -> Option<Seq<ToolCallView>> {
    match calls {
        Some(calls) => Some(Seq::new(calls@.len(), |i: int| wire_call(calls@[i]))),
        None => None,
    }
}

pub fn convert_tool_call(call: &ResponseToolCall) -> (tool_call: ToolCall)
    ensures
        tool_call@ == wire_call(*call),
        tool_call.id@ == call.id@,
        text::optional(tool_call.call_type) == Some(call.call_type@),
        tool_call.function matches Some(function) && function.name@ == call.function.name@
            && function.arguments@ == call.function.arguments@,
{
    ToolCall {
        id: call.id.clone(),
        call_type: Some(call.call_type.clone()),
        function: Some(
            ToolCallFunction {
                name: call.function.name.clone(),
                arguments: call.function.arguments.clone(),
            },
        ),
        name: None,
        arguments: None,
    }
}

pub fn convert_tool_calls(calls: &Option<Vec<ResponseToolCall>>) -> (tool_calls: Option<
    Vec<ToolCall>,
>)
    ensures
        types::optional_calls(tool_calls) == wire_calls(*calls),
        tool_calls is Some <==> calls is Some,
        tool_calls matches Some(list) ==> list@.len() == calls->0@.len() && forall|i: int|
            0 <= i < list@.len() ==> (#[trigger] list@[i])@ == wire_call(calls->0@[i]),
{
    match calls {
        Some(calls) => {
            let mut tool_calls: Vec<ToolCall> = Vec::new();
            let mut at: usize = 0;
            while at < calls.len()
                invariant
                    at <= calls.len(),
                    tool_calls.len() == at,
                    forall|i: int| 0 <= i < at ==> (#[trigger] tool_calls@[i])@ == wire_call(calls@[i]),
                decreases calls.len() - at,
            {
                tool_calls.push(convert_tool_call(&calls[at]));
                at = at + 1;
            }
            assert(types::calls_view(tool_calls@) =~= Seq::new(
                calls@.len(),
                |i: int| wire_call(calls@[i]),
            ));
            Some(tool_calls)
        },
        None => None,
    }
}

/// The error that an answer without success calls for: a rate limit where the
/// status is 429, with the hint of the `retry-after` field where that is a
/// number of seconds, and else an API error with the body as its message.
pub fn refused(status: u16, retry_after: Option<&str>, body: String) -> (error: ProviderError)
    ensures
        if status == 429 {
            error == (ProviderError::RateLimited {
                retry_after_secs: match retry_after {
                    Some(value) => text::u64_value(value@),
                    None => None,
                },
            })
        } else {
            error == (ProviderError::Api { status, message: body })
        },
{
    if status == 429 {
        ProviderError::RateLimited {
            retry_after_secs: match retry_after {
                Some(value) => text::parse_u64(value),
                None => None,
            },
        }
    } else {
        ProviderError::Api { status, message: body }
    }
}

/// What goes over the wire is the conversation, message for message and call for
/// call: nothing is left out, and every field is the one of the same name.
pub proof fn lemma_the_wire_carries_every_field(
    api: ApiMessage,
    message: MessageView,
    api_call: ApiToolCall,
    call: ToolCallView,
    api_tool: ApiTool,
    tool: ToolDefinitionView,
)
    ensures
        is_api_message(api, message) ==> {
            &&& api.role@ == message.role.name()
            &&& types::shows_text(message.content, api.content)
            &&& types::shows_text(message.tool_call_id, api.tool_call_id)
            &&& types::shows_text(message.name, api.name)
            &&& api.tool_calls is Some <==> message.tool_calls is Some
            &&& api.tool_calls matches Some(list) ==> list@.len() == message.tool_calls->0.len()
                && forall|i: int|
                0 <= i < list@.len() ==> is_api_call(
                    #[trigger] list@[i],
                    message.tool_calls->0[i],
                )
        },
        is_api_call(api_call, call) ==> {
            &&& api_call.id@ == call.id
            &&& call.call_type matches Some(call_type) ==> api_call.call_type@ == call_type
            &&& call.function matches Some(function) ==> api_call.function.name@ == function.0
                && api_call.function.arguments@ == function.1
        },
        is_api_tool(api_tool, tool) ==> {
            &&& api_tool.function.name@ == tool.name
            &&& api_tool.function.description@ == tool.description
            &&& api_tool.function.parameters@ == tool.parameters
        },
{
}

/// The wire gives every tool call as it stands, in order.
pub proof fn lemma_the_wire_gives_every_call(calls: Vec<ResponseToolCall>, i: int)
    ensures
        wire_calls(None) is None,
        wire_calls(Some(calls)) matches Some(list) && list.len() == calls@.len() && (0 <= i
            < calls@.len() ==> {
            &&& list[i].id == calls@[i].id@
            &&& list[i].call_type == Some(calls@[i].call_type@)
            &&& list[i].function == Some(
                (calls@[i].function.name@, calls@[i].function.arguments@),
            )
            &&& list[i].name is None
            &&& list[i].arguments is None
        }),
{
}

/// A request carries every message and every tool, in order, and no others; it
/// has a list of tools only where there are any, and asks for a format only
/// where a schema is given, under the schema's own name.
pub proof fn lemma_a_request_carries_all_of_each(
    api: Seq<ApiMessage>,
    messages: Seq<MessageView>,
    listed: Option<Vec<ApiTool>>,
    tools: Seq<ToolDefinitionView>,
    format: Option<ResponseFormat>,
    schema: Option<StructuredOutputSchema>,
)
    ensures
        are_api_messages(api, messages) <==> api.len() == messages.len() && forall|i: int|
            0 <= i < messages.len() ==> is_api_message(#[trigger] api[i], messages[i]),
        are_api_tools(listed, tools) ==> (listed is Some <==> tools.len() > 0),
        are_api_tools(listed, tools) && tools.len() > 0 ==> listed->0@.len() == tools.len()
            && forall|i: int|
            0 <= i < tools.len() ==> {
                &&& (#[trigger] listed->0@[i]).tool_type@ == "function"@
                &&& listed->0@[i].function.name@ == tools[i].name
                &&& listed->0@[i].function.description@ == tools[i].description
                &&& listed->0@[i].function.parameters@ == tools[i].parameters
            },
        is_response_format(format, schema) ==> (format is Some <==> schema is Some),
        is_response_format(format, schema) && schema is Some ==> format->0.format_type@
            == "json_schema"@ && (format->0.json_schema matches Some(wrapper) && wrapper.name@
            == schema->0.name@ && wrapper.strict == schema->0.strict && wrapper.schema@
            == schema->0.schema@),
{
}


} // verus!
