//! OpenRouter: its requests, and what its answers mean.

use crate::providers::chat_api;
use crate::providers::chat_api::ApiMessage;
use crate::providers::chat_api::ApiTool;
use crate::providers::chat_api::ResponseFormat;
use crate::providers::chat_api::ResponseToolCall;
use crate::providers::error;
use crate::providers::error::ProviderError;
use crate::providers::types;
use crate::providers::types::CompletionResponse;
use crate::providers::types::CompletionView;
use crate::providers::types::LlmConfig;
use crate::providers::types::Message;
use crate::providers::types::ParamSupport;
use crate::providers::types::ToolDefinition;
use crate::text;
use vstd::prelude::*;

verus! {

#[derive(Debug, PartialEq)]
pub struct ReasoningConfig {
    pub effort: String,
}

#[derive(Debug, PartialEq)]
pub struct ProviderPreferences {
    pub require_parameters: bool,
}

/// The body of a request.
#[derive(Debug, PartialEq)]
pub struct ChatRequest {
    pub model: String,
    pub messages: Vec<ApiMessage>,
    pub tools: Option<Vec<ApiTool>>,
    pub tool_choice: Option<String>,
    /// The temperature, as the bits of a number of 32 bits with a binary point.
    pub temperature: Option<u32>,
    pub max_tokens: Option<u32>,
    pub response_format: Option<ResponseFormat>,
    pub provider: Option<ProviderPreferences>,
    pub reasoning: Option<ReasoningConfig>,
    pub stream: bool,
}

/// Whether reasoning is set as `config` wants it: to a minimum, where that is
/// asked for and the model supports the setting.
pub open spec fn is_reasoning(
    reasoning: Option<ReasoningConfig>,
    config: LlmConfig,
    support: ParamSupport,
) -> bool {
    if config.params.minimize_reasoning && support.reasoning {
        reasoning matches Some(reasoning) && reasoning.effort@ == "minimal"@
    } else {
        reasoning is None
    }
}

/// Whether a request carries the model, the messages and the tools.
pub open spec fn carries(
    request: ChatRequest,
    messages: Seq<Message>,
    tools: Seq<ToolDefinition>,
    config: LlmConfig,
) -> bool {
    &&& request.model@ == config.model@
    &&& chat_api::are_api_messages(request.messages@, types::messages_view(messages))
    &&& chat_api::are_api_tools(request.tools, types::tools_view(tools))
    &&& request.tool_choice is None
    &&& request.max_tokens == config.params.max_tokens
}

fn reasoning(config: &LlmConfig, support: ParamSupport) -> (reasoning: Option<ReasoningConfig>)
    ensures
        is_reasoning(reasoning, *config, support),
{
    if config.params.minimize_reasoning && support.reasoning {
        Some(ReasoningConfig { effort: String::from_str("minimal") })
    } else {
        None
    }
}

/// The request for an answer in one piece.
///
/// Where the answer has to follow a schema, the request is routed only to
/// upstreams that support every parameter it sends. A preference must not
/// constrain that, so the temperature is sent only where it is known to be
/// supported. The token limit is always sent.
pub fn chat_request(
    messages: &Vec<Message>,
    tools: &Vec<ToolDefinition>,
    config: &LlmConfig,
    support: ParamSupport,
) -> (request: ChatRequest)
    ensures
        carries(request, messages@, tools@, *config),
        request.model@ == config.model@,
        request.max_tokens == config.params.max_tokens,
        request.messages@.len() == messages@.len(),
        forall|i: int|
            0 <= i < messages@.len() ==> chat_api::is_api_message(
                #[trigger] request.messages@[i],
                messages@[i]@,
            ),
        chat_api::are_api_tools(request.tools, types::tools_view(tools@)),
        request.reasoning is Some <==> config.params.minimize_reasoning && support.reasoning,
        request.reasoning matches Some(reasoning) ==> reasoning.effort@ == "minimal"@,
        request.tool_choice is None,
        !request.stream,
        is_reasoning(request.reasoning, *config, support),
        chat_api::is_response_format(request.response_format, config.params.structured_output),
        config.params.structured_output is Some <==> request.provider is Some,
        request.provider matches Some(provider) ==> provider.require_parameters,
        request.temperature == (if config.params.structured_output is Some {
            if support.temperature_known {
                config.params.temperature
            } else {
                None
            }
        } else if support.temperature {
            config.params.temperature
        } else {
            None
        }),
{
    let provider = if config.params.structured_output.is_some() {
        Some(ProviderPreferences { require_parameters: true })
    } else {
        None
    };
    let sendable = if provider.is_some() {
        support.temperature_known
    } else {
        support.temperature
    };
    ChatRequest {
        model: config.model.clone(),
        messages: chat_api::convert_messages(messages),
        tools: chat_api::convert_tools(tools),
        tool_choice: None,
        temperature: if sendable {
            config.params.temperature
        } else {
            None
        },
        max_tokens: config.params.max_tokens,
        response_format: chat_api::response_format(&config.params.structured_output),
        provider,
        reasoning: reasoning(config, support),
        stream: false,
    }
}

/// The request for a streamed answer. Such an answer cannot be held to a
/// schema.
pub fn streaming_request(
    messages: &Vec<Message>,
    tools: &Vec<ToolDefinition>,
    config: &LlmConfig,
    support: ParamSupport,
) -> (request: ChatRequest)
    ensures
        carries(request, messages@, tools@, *config),
        request.model@ == config.model@,
        request.max_tokens == config.params.max_tokens,
        request.messages@.len() == messages@.len(),
        forall|i: int|
            0 <= i < messages@.len() ==> chat_api::is_api_message(
                #[trigger] request.messages@[i],
                messages@[i]@,
            ),
        chat_api::are_api_tools(request.tools, types::tools_view(tools@)),
        request.reasoning is Some <==> config.params.minimize_reasoning && support.reasoning,
        request.reasoning matches Some(reasoning) ==> reasoning.effort@ == "minimal"@,
        request.tool_choice is None,
        request.stream,
        is_reasoning(request.reasoning, *config, support),
        request.temperature == config.params.temperature,
        request.response_format is None,
        request.provider is None,
{
    ChatRequest {
        model: config.model.clone(),
        messages: chat_api::convert_messages(messages),
        tools: chat_api::convert_tools(tools),
        tool_choice: None,
        temperature: config.params.temperature,
        max_tokens: config.params.max_tokens,
        response_format: None,
        provider: None,
        reasoning: reasoning(config, support),
        stream: true,
    }
}

#[derive(Debug, PartialEq)]
pub struct ResponseUsage {
    pub completion_tokens: Option<u32>,
}

#[derive(Debug, PartialEq)]
pub struct ResponseMessage {
    pub content: Option<String>,
    pub tool_calls: Option<Vec<ResponseToolCall>>,
}

#[derive(Debug, PartialEq)]
pub struct Choice {
    pub message: ResponseMessage,
    pub finish_reason: Option<String>,
    pub native_finish_reason: Option<String>,
}

/// The body of an answer.
#[derive(Debug, PartialEq)]
pub struct ChatResponse {
    pub choices: Vec<Choice>,
    pub usage: Option<ResponseUsage>,
    pub provider: Option<String>,
    pub id: Option<String>,
}

/// The completion that an answer with a choice holds: its first choice, and
/// what the gateway says of it.
pub open spec fn completion_in(response: ChatResponse) -> CompletionView {
    let choice = response.choices@[0];
    CompletionView {
        content: types::or_empty(text::optional(choice.message.content)),
        tool_calls: chat_api::wire_calls(choice.message.tool_calls),
        finish_reason: text::optional(choice.finish_reason),
        native_finish_reason: text::optional(choice.native_finish_reason),
        completion_tokens: match response.usage {
            Some(usage) => usage.completion_tokens,
            None => None,
        },
        upstream_provider: text::optional(response.provider),
        generation_id: text::optional(response.id),
    }
}

/// Reads the completion out of an answer.
pub fn read_response(response: &ChatResponse) -> (outcome: Result<
    CompletionResponse,
    ProviderError,
>)
    ensures
        match outcome {
            Ok(completion) => response.choices@.len() > 0 && completion@ == completion_in(*response),
            Err(error) => response.choices@.len() == 0 && (error matches ProviderError::ParseError(
                message,
            ) && message@ == "No choices in response"@),
        },
{
    if response.choices.len() == 0 {
        return Err(ProviderError::ParseError(String::from_str("No choices in response")));
    }
    let choice = &response.choices[0];
    Ok(
        CompletionResponse {
            content: match &choice.message.content {
                Some(content) => content.clone(),
                None => String::new(),
            },
            tool_calls: chat_api::convert_tool_calls(&choice.message.tool_calls),
            finish_reason: text::copy_optional(&choice.finish_reason),
            native_finish_reason: text::copy_optional(&choice.native_finish_reason),
            completion_tokens: match &response.usage {
                Some(usage) => usage.completion_tokens,
                None => None,
            },
            upstream_provider: text::copy_optional(&response.provider),
            generation_id: text::copy_optional(&response.id),
        },
    )
}

/// What an answer says is read as it stands: the first choice's text, calls and
/// reasons, and what the gateway adds.
pub proof fn lemma_an_answer_is_its_first_choice(response: ChatResponse)
    requires
        response.choices@.len() > 0,
    ensures
        ({
            let read = completion_in(response);
            let choice = response.choices@[0];
            &&& choice.message.content matches Some(content) ==> read.content == content@
            &&& choice.message.content is None ==> read.content.len() == 0
            &&& read.tool_calls == chat_api::wire_calls(choice.message.tool_calls)
            &&& types::shows_text(read.finish_reason, choice.finish_reason)
            &&& types::shows_text(read.native_finish_reason, choice.native_finish_reason)
            &&& response.usage matches Some(usage) ==> read.completion_tokens
                == usage.completion_tokens
            &&& response.usage is None ==> read.completion_tokens is None
            &&& types::shows_text(read.upstream_provider, response.provider)
            &&& types::shows_text(read.generation_id, response.id)
        }),
{
}

/// What came back for a request.
pub struct Reply {
    pub status: u16,
    /// The `retry-after` header field, where it is text.
    pub retry_after: Option<String>,
    /// The gateway's id for the request.
    pub trace_id: Option<String>,
    pub body: String,
}

/// Whether a status says that a request succeeded.
pub open spec fn is_success(status: u16) -> bool {
    200 <= status < 300
}

/// Whether `error` is what a reply calls for, by what was found in its body:
/// `upstream` is the code and the message of an error that the body holds in
/// place of a completion, and `failure` the parser's error.
pub open spec fn is_reply_error(
    error: ProviderError,
    reply: Reply,
    upstream: Option<(String, String)>,
    failure: Option<serde_json::Error>,
) -> bool {
    if reply.status == 429 {
        error == (ProviderError::RateLimited {
            retry_after_secs: match reply.retry_after {
                Some(value) => text::u64_value(value@),
                None => None,
            },
        })
    } else if !is_success(reply.status) {
        error == (ProviderError::Api { status: reply.status, message: reply.body })
    } else if let Some((code, said)) = upstream {
        error matches ProviderError::Api { status, message } && status == 502 && message@
            == "[upstream "@ + code@ + "] "@ + said@
    } else if failure is Some {
        error::is_decode_error(
            error,
            "chat response"@,
            reply.body@,
            crate::outside::input_ended(failure->0),
            crate::outside::json_error_rendering(failure->0),
            text::optional(reply.trace_id),
        )
    } else {
        error matches ProviderError::ParseError(message) && message@ == "No choices in response"@
    }
}

/// Settles a request by its reply. A 200 may carry an error in place of a
/// completion: a gateway that has committed its status has no other way left.
/// That counts as a failure of the upstream.
pub fn settle(
    reply: Reply,
    upstream: Option<(String, String)>,
    parsed: Result<ChatResponse, serde_json::Error>,
) -> (outcome: Result<CompletionResponse, ProviderError>)
    ensures
        outcome is Ok <==> 200 <= reply.status < 300 && upstream is None && (parsed matches Ok(
            response,
        ) && response.choices@.len() > 0),
        outcome matches Ok(completion) ==> completion@ == completion_in(parsed->Ok_0),
        outcome matches Err(error) ==> is_reply_error(
            error,
            reply,
            upstream,
            match parsed {
                Ok(_) => None,
                Err(failure) => Some(failure),
            },
        ),
{
    if reply.status < 200 || 300 <= reply.status {
        return Err(chat_api::refused(reply.status, text::as_deref(&reply.retry_after), reply.body));
    }
    if let Some((code, message)) = upstream {
        let mut shown = String::from_str("[upstream ");
        shown.append(code.as_str());
        shown.append("] ");
        shown.append(message.as_str());
        return Err(ProviderError::Api { status: 502, message: shown });
    }
    match parsed {
        Ok(response) => read_response(&response),
        Err(failure) => {
            let trace_id = text::as_deref(&reply.trace_id);
            Err(error::decode_error("chat response", reply.body.as_str(), &failure, trace_id))
        },
    }
}

/// The error that a reply calls for: a rate limit with the hint of its header
/// field for 429; the status with the body for any other refusal; a failure of
/// the upstream, which a retry may mend, where a reply that says success holds an
/// error; and else what the parser says.
pub proof fn lemma_replies_are_told_apart(
    error: ProviderError,
    reply: Reply,
    upstream: Option<(String, String)>,
    failure: Option<serde_json::Error>,
)
    requires
        is_reply_error(error, reply, upstream, failure),
    ensures
        reply.status == 429 ==> (error matches ProviderError::RateLimited { retry_after_secs }
            && match reply.retry_after {
            Some(value) => retry_after_secs == text::u64_value(value@),
            None => retry_after_secs is None,
        }),
        reply.status != 429 && !(200 <= reply.status < 300) ==> (error matches ProviderError::Api {
            status,
            message,
        } && status == reply.status && message == reply.body),
        200 <= reply.status < 300 ==> (upstream matches Some((code, said)) ==> error.retryable()
            && (error matches ProviderError::Api { status, message } && status == 502 && message@
            == "[upstream "@ + code@ + "] "@ + said@)),
        200 <= reply.status < 300 && upstream is None && failure is None ==> (
        error matches ProviderError::ParseError(message) && message@ == "No choices in response"@),
{
}

} // verus!
