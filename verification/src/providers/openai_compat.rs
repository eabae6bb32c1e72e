//! Servers that follow the OpenAI format more or less closely.

use crate::outside;
use crate::providers::chat_api;
use crate::providers::chat_api::ApiMessage;
use crate::providers::chat_api::ApiTool;
use crate::providers::chat_api::ResponseFormat;
use crate::providers::chat_api::ResponseToolCall;
use crate::providers::error::ProviderError;
use crate::providers::openrouter;
use crate::providers::types;
use crate::providers::types::CompletionResponse;
use crate::providers::types::CompletionView;
use crate::providers::types::LlmConfig;
use crate::providers::types::Message;
use crate::providers::types::ToolDefinition;
use crate::text;
use vstd::prelude::*;

verus! {

/// The body of a request.
#[derive(Debug, PartialEq)]
pub struct ChatRequest {
    pub model: String,
    pub messages: Vec<ApiMessage>,
    pub tools: Option<Vec<ApiTool>>,
    pub tool_choice: Option<String>,
    pub response_format: Option<ResponseFormat>,
    pub stream: bool,
}

/// The request for an answer, in one piece or streamed. A streamed answer
/// cannot be held to a schema.
pub fn chat_request(
    messages: &Vec<Message>,
    tools: &Vec<ToolDefinition>,
    config: &LlmConfig,
    stream: bool,
) -> (request: ChatRequest)
    ensures
        request.model@ == config.model@,
        request.messages@.len() == messages@.len(),
        forall|i: int|
            0 <= i < messages@.len() ==> chat_api::is_api_message(
                #[trigger] request.messages@[i],
                messages@[i]@,
            ),
        chat_api::are_api_messages(request.messages@, types::messages_view(messages@)),
        chat_api::are_api_tools(request.tools, types::tools_view(tools@)),
        request.tool_choice is None,
        if stream {
            request.response_format is None
        } else {
            chat_api::is_response_format(request.response_format, config.params.structured_output)
        },
        request.stream == stream,
{
    ChatRequest {
        model: config.model.clone(),
        messages: chat_api::convert_messages(messages),
        tools: chat_api::convert_tools(tools),
        tool_choice: None,
        response_format: if stream {
            None
        } else {
            chat_api::response_format(&config.params.structured_output)
        },
        stream,
    }
}

#[derive(Debug, PartialEq)]
pub struct ResponseMessage {
    pub content: Option<String>,
    /// Some servers put a structured answer here.
    pub reasoning_content: Option<String>,
    pub tool_calls: Option<Vec<ResponseToolCall>>,
}

impl ResponseMessage {
    /// The text of the message: its content, or its reasoning where the
    /// content is missing or empty. `None` where neither holds anything.
    pub open spec fn effective(&self) -> Option<Seq<char>> {
        if self.content matches Some(content) && content@.len() > 0 {
            Some(self.content->0@)
        } else if self.reasoning_content matches Some(reasoning) && reasoning@.len() > 0 {
            Some(self.reasoning_content->0@)
        } else {
            None
        }
    }

    pub fn effective_content(&self) -> (content: Option<String>)
        ensures
            text::optional(content) == self.effective(),
            (self.content matches Some(own) && own@.len() > 0) ==> (content matches Some(shown)
                && shown@ == self.content->0@),
            !(self.content matches Some(own) && own@.len() > 0) && (self.reasoning_content
                matches Some(reasoning) && reasoning@.len() > 0) ==> (content matches Some(shown)
                && shown@ == self.reasoning_content->0@),
            !(self.content matches Some(own) && own@.len() > 0) && !(self.reasoning_content
                matches Some(reasoning) && reasoning@.len() > 0) ==> content is None,
    {
        if let Some(content) = &self.content {
            if !content.as_str().is_empty() {
                return Some(content.clone());
            }
        }
        if let Some(reasoning) = &self.reasoning_content {
            if !reasoning.as_str().is_empty() {
                return Some(reasoning.clone());
            }
        }
        None
    }
}

#[derive(Debug, PartialEq)]
pub struct Choice {
    pub message: ResponseMessage,
    pub finish_reason: Option<String>,
}

/// The body of an answer.
#[derive(Debug, PartialEq)]
pub struct ChatResponse {
    pub choices: Vec<Choice>,
}

/// The completion that an answer with a choice holds.
pub open spec fn completion_in(response: ChatResponse) -> CompletionView {
    let choice = response.choices@[0];
    CompletionView {
        content: types::or_empty(choice.message.effective()),
        tool_calls: chat_api::wire_calls(choice.message.tool_calls),
        finish_reason: text::optional(choice.finish_reason),
        native_finish_reason: None,
        completion_tokens: None,
        upstream_provider: None,
        generation_id: None,
    }
}

/// Settles a request by its reply: the status, the `retry-after` header field
/// where it is text, and the body with what the parser made of it.
pub fn settle(
    status: u16,
    retry_after: Option<&str>,
    body: String,
    parsed: Result<ChatResponse, serde_json::Error>,
) -> (outcome: Result<CompletionResponse, ProviderError>)
    ensures
        outcome is Ok <==> 200 <= status < 300 && (parsed matches Ok(response)
            && response.choices@.len() > 0),
        outcome matches Ok(completion) ==> completion@ == completion_in(parsed->Ok_0),
        status == 429 ==> outcome == Err::<CompletionResponse, ProviderError>(
            ProviderError::RateLimited {
                retry_after_secs: match retry_after {
                    Some(value) => text::u64_value(value@),
                    None => None,
                },
            },
        ),
        status != 429 && !(200 <= status < 300) ==> outcome == Err::<
            CompletionResponse,
            ProviderError,
        >(ProviderError::Api { status, message: body }),
        200 <= status < 300 && parsed is Err ==> (outcome matches Err(error)
            && error matches ProviderError::ParseError(message) && message@
            == "Failed to parse chat response: "@ + outside::json_error_rendering(parsed->Err_0)),
        200 <= status < 300 && (parsed matches Ok(response) && response.choices@.len()
            == 0) ==> (outcome matches Err(error) && error matches ProviderError::ParseError(message)
            && message@ == "No choices in response"@),
{
    if status < 200 || 300 <= status {
        return Err(chat_api::refused(status, retry_after, body));
    }
    match parsed {
        Ok(response) => {
            if response.choices.len() == 0 {
                return Err(ProviderError::ParseError(String::from_str("No choices in response")));
            }
            let choice = &response.choices[0];
            Ok(
                CompletionResponse {
                    content: match choice.message.effective_content() {
                        Some(content) => content,
                        None => String::new(),
                    },
                    tool_calls: chat_api::convert_tool_calls(&choice.message.tool_calls),
                    finish_reason: text::copy_optional(&choice.finish_reason),
                    native_finish_reason: None,
                    completion_tokens: None,
                    upstream_provider: None,
                    generation_id: None,
                },
            )
        },
        Err(failure) => {
            let reason = outside::json_error_text(&failure);
            Err(
                ProviderError::ParseError(
                    String::from_str("Failed to parse chat response: ").concat(reason.as_str()),
                ),
            )
        },
    }
}

/// What an answer says is the text of its first choice, or the reasoning where
/// that has no text, with its calls and its reason.
pub proof fn lemma_an_answer_is_its_first_choice(response: ChatResponse)
    requires
        response.choices@.len() > 0,
    ensures
        ({
            let read = completion_in(response);
            let message = response.choices@[0].message;
            let silent = message.content is None || message.content->0@.len() == 0;
            &&& !silent ==> read.content == message.content->0@
            &&& silent && message.reasoning_content is Some ==> read.content
                == message.reasoning_content->0@
            &&& silent && message.reasoning_content is None ==> read.content.len() == 0
            &&& read.tool_calls == chat_api::wire_calls(message.tool_calls)
            &&& types::shows_text(read.finish_reason, response.choices@[0].finish_reason)
        }),
{
    let message = response.choices@[0].message;
    if message.reasoning_content is Some && message.reasoning_content->0@.len() == 0 {
        assert(message.reasoning_content->0@ =~= Seq::<char>::empty());
    }
}

} // verus!
