use atomic_core::json;
use atomic_core::json::Json;
use atomic_core::providers::assembly::ChatStream;
use atomic_core::providers::assembly::Dialect;
use atomic_core::providers::assembly::StreamStep;
use atomic_core::providers::chat_api;
use atomic_core::providers::error::classify_provider_failure;
use atomic_core::providers::error::ProviderError;
use atomic_core::providers::error::ProviderFailureClass;
use atomic_core::providers::ollama;
use atomic_core::providers::openai_compat;
use atomic_core::providers::openrouter;
use atomic_core::providers::types::GenerationParams;
use atomic_core::providers::types::LlmConfig;
use atomic_core::providers::types::Message;
use atomic_core::providers::types::ParamSupport;
use atomic_core::providers::types::StructuredOutputSchema;
use atomic_core::providers::types::ToolCall;
use atomic_core::providers::types::ToolCallFunction;
use atomic_core::providers::types::ToolDefinition;

fn s(text: &str) -> String {
    text.to_string()
}

fn config(structured: bool) -> LlmConfig {
    LlmConfig {
        model: s("m"),
        params: GenerationParams {
            temperature: Some(0.7f32.to_bits()),
            max_tokens: Some(100),
            structured_output: if structured {
                Some(StructuredOutputSchema { name: s("n"), strict: true, schema: Json::Null })
            } else {
                None
            },
            minimize_reasoning: true,
        },
    }
}

fn tools() -> Vec<ToolDefinition> {
    vec![ToolDefinition::new("echo", "Echo", Json::Object(vec![]))]
}

fn called() -> Message {
    Message::assistant_with_tool_calls(vec![ToolCall {
        id: s("c1"),
        call_type: Some(s("function")),
        function: Some(ToolCallFunction { name: s("echo"), arguments: s("{\"a\":1}") }),
        name: None,
        arguments: None,
    }])
}

const KNOWN: ParamSupport =
    ParamSupport { temperature: true, temperature_known: true, reasoning: true };
const GUESSED: ParamSupport =
    ParamSupport { temperature: true, temperature_known: false, reasoning: false };

#[test]
fn a_schema_holds_the_gateway_to_what_it_sends() {
    let messages = vec![Message::user("hi"), called(), Message::tool_result("c1", "r")];
    let request = openrouter::chat_request(&messages, &tools(), &config(true), KNOWN);
    assert!(request.provider.unwrap().require_parameters);
    assert_eq!(request.temperature, Some(0.7f32.to_bits()));
    assert_eq!(request.max_tokens, Some(100));
    assert_eq!(request.response_format.unwrap().format_type, "json_schema");
    assert_eq!(request.messages[2].tool_call_id.as_deref(), Some("c1"));
    let request = openrouter::chat_request(&messages, &tools(), &config(true), GUESSED);
    assert_eq!(request.temperature, None, "a preference must not constrain the routing");
    assert!(request.reasoning.is_none());
    let request = openrouter::chat_request(&messages, &vec![], &config(false), GUESSED);
    assert_eq!(request.temperature, Some(0.7f32.to_bits()));
    assert!(request.provider.is_none() && request.tools.is_none());
    assert!(openrouter::streaming_request(&messages, &tools(), &config(false), KNOWN).stream);
}

#[test]
fn the_other_dialects_shape_requests_their_own_way() {
    let request = openai_compat::chat_request(&vec![called()], &tools(), &config(true), false);
    assert_eq!(request.response_format.unwrap().json_schema.unwrap().name, "n");
    let calls = request.messages[0].tool_calls.as_ref().unwrap();
    assert_eq!(calls[0].function.arguments, "{\"a\":1}");
    let streamed = openai_compat::chat_request(&vec![called()], &tools(), &config(true), true);
    assert!(streamed.response_format.is_none());

    let request = ollama::chat_request(&vec![called()], &tools(), &config(true), false);
    assert_eq!(request.think, Some(false));
    assert_eq!(request.format, Some(Json::Null));
    assert_eq!(request.options.unwrap().num_predict, Some(100));
    let calls = request.messages[0].tool_calls.as_ref().unwrap();
    assert_eq!(calls[0].function.arguments, json::parse("{\"a\":1}").unwrap());
}

fn reply(status: u16, body: &str) -> openrouter::Reply {
    openrouter::Reply {
        status,
        retry_after: Some(s("12")),
        trace_id: Some(s("gen")),
        body: s(body),
    }
}

fn answer(choices: usize) -> openrouter::ChatResponse {
    openrouter::ChatResponse {
        choices: (0..choices)
            .map(|_| openrouter::Choice {
                message: openrouter::ResponseMessage { content: Some(s("hi")), tool_calls: None },
                finish_reason: Some(s("stop")),
                native_finish_reason: None,
            })
            .collect(),
        usage: Some(openrouter::ResponseUsage { completion_tokens: Some(3) }),
        provider: Some(s("p")),
        id: Some(s("g")),
    }
}

#[test]
fn a_reply_settles_a_request() {
    let ok = openrouter::settle(reply(200, ""), None, Ok(answer(1))).expect("an answer");
    assert_eq!((ok.content.as_str(), ok.completion_tokens), ("hi", Some(3)));
    assert_eq!(ok.generation_id.as_deref(), Some("g"));
    let none = openrouter::settle(reply(200, ""), None, Ok(answer(0))).unwrap_err();
    assert_eq!(none.to_string(), "Parse error: No choices in response");
    let limited = openrouter::settle(reply(429, ""), None, Ok(answer(1))).unwrap_err();
    assert_eq!(limited.retry_after(), Some(12));
    let refused = openrouter::settle(reply(500, "boom"), None, Ok(answer(1))).unwrap_err();
    assert_eq!(refused.to_string(), "API error (500): boom");
    let upstream =
        openrouter::settle(reply(200, ""), Some((s("502"), s("dead"))), Ok(answer(1))).unwrap_err();
    assert_eq!(upstream.to_string(), "API error (502): [upstream 502] dead");
    let padded = serde_json::from_str::<serde_json::Value>(" ").unwrap_err();
    let cut = openrouter::settle(reply(200, " "), None, Err(padded)).unwrap_err();
    assert!(matches!(cut, ProviderError::Network(_)) && cut.to_string().contains("[generation gen]"));
}

#[test]
fn a_compatible_server_may_answer_in_its_reasoning() {
    let answer = |content: Option<&str>, reasoning: Option<&str>| openai_compat::ChatResponse {
        choices: vec![openai_compat::Choice {
            message: openai_compat::ResponseMessage {
                content: content.map(s),
                reasoning_content: reasoning.map(s),
                tool_calls: None,
            },
            finish_reason: None,
        }],
    };
    let settle = |answer| openai_compat::settle(200, None, String::new(), Ok(answer)).unwrap().content;
    assert_eq!(settle(answer(Some(""), Some("r"))), "r");
    assert_eq!(settle(answer(Some("c"), Some("r"))), "c");
    assert_eq!(settle(answer(None, None)), "");
    let limited = openai_compat::settle(429, Some("soon"), String::new(), Ok(answer(None, None)));
    assert_eq!(limited.unwrap_err().retry_after(), None);
    let broken = serde_json::from_str::<serde_json::Value>("{").unwrap_err();
    let reason = broken.to_string();
    let failed = openai_compat::settle(200, None, s("{"), Err(broken)).unwrap_err();
    assert_eq!(failed.to_string(), format!("Parse error: Failed to parse chat response: {reason}"));
}

#[test]
fn calls_of_an_answer_get_ids_that_the_wire_did_not_send() {
    let call = ollama::ResponseToolCall {
        function: ollama::ResponseFunctionCall {
            name: s("echo"),
            arguments: json::parse("{\"b\":[1,2],\"a\":null}").unwrap(),
        },
    };
    let converted = ollama::tool_call_with_id(&call, "u");
    assert_eq!(converted.id, "call_u");
    assert_eq!(converted.get_arguments(), Some("{\"a\":null,\"b\":[1,2]}"));
    let (one, two) = (ollama::convert_tool_call(&call), ollama::convert_tool_call(&call));
    assert_ne!(one.id, two.id);
    let uuid: Vec<char> = one.id.strip_prefix("call_").unwrap().chars().collect();
    assert_eq!(uuid.len(), 36);
    for (i, ch) in uuid.iter().enumerate() {
        if [8, 13, 18, 23].contains(&i) {
            assert_eq!(*ch, '-');
        } else {
            assert!(ch.is_ascii_hexdigit() && !ch.is_ascii_uppercase(), "{}", one.id);
        }
    }
    assert_eq!(uuid[14], '4');
    assert!("89ab".contains(uuid[19]));
    let response = ollama::ChatResponse {
        message: ollama::ResponseMessage { content: s("x"), tool_calls: Some(vec![call]) },
        done: true,
    };
    let read = ollama::read_response(&response);
    assert_eq!((read.content.as_str(), read.tool_calls.unwrap().len()), ("x", 1));
    assert_eq!(ollama::refused(404, s("no")).to_string(), "API error (404): no");
    let wire = chat_api::ResponseToolCall {
        id: s("c"),
        call_type: s("function"),
        function: chat_api::ResponseFunctionCall { name: s("n"), arguments: s("{}") },
    };
    assert_eq!(chat_api::convert_tool_call(&wire).get_name(), Some("n"));
}

/// What a gateway sends to keep a connection alive, `newlines` line feeds of it.
fn padding(newlines: usize) -> String {
    "\n         \n".repeat(newlines / 2)
}

/// What a complete answer that holds nothing but padding comes to.
fn settle_padded(newlines: usize) -> ProviderError {
    let body = padding(newlines);
    let parsed = serde_json::from_str::<serde_json::Value>(&body).map(|_| answer(1));
    openrouter::settle(reply(200, &body), None, parsed).unwrap_err()
}

#[test]
fn padded_body_is_a_retryable_transport_failure() {
    let err = settle_padded(232);
    // So many newlines are how long the call was in flight, at the gateway's
    // pace of keeping a connection alive.
    let implied_wait: f64 = 232.0 / 4.66;
    assert!((implied_wait - 49.13).abs() < 2.0);
    let ProviderError::Network(msg) = &err else {
        panic!("a padded body is a truncated transfer, not a parse failure: {err:?}");
    };
    assert!(msg.contains("232 newlines") && msg.contains("without ever sending a payload"));
    assert!(err.is_retryable());
    assert_eq!(classify_provider_failure(&err.to_string()), ProviderFailureClass::Transient);
}

#[test]
fn both_framings_of_a_delivered_nothing_are_retryable() {
    let cut = ProviderError::Network(s("error decoding response body"));
    for err in [cut, settle_padded(232)] {
        assert!(matches!(err, ProviderError::Network(_)));
        assert!(err.is_retryable());
        assert_eq!(classify_provider_failure(&err.to_string()), ProviderFailureClass::Transient);
    }
}

#[test]
fn a_stream_that_carries_nothing_fails_instead_of_returning_empty() {
    let mut stream = ChatStream::new(Dialect::OpenRouter);
    stream.feed(&padding(40).into_bytes());
    assert!(matches!(stream.next(), StreamStep::Wait));
    let err = stream.finish(None).unwrap_err();
    assert!(matches!(err, ProviderError::Network(_)));
    assert!(err.is_retryable());
    assert_eq!(classify_provider_failure(&err.to_string()), ProviderFailureClass::Transient);
}
