use atomic_core::json;
use atomic_core::providers::assembly::ChatStream;
use atomic_core::providers::assembly::Dialect;
use atomic_core::providers::assembly::StreamStep;
use atomic_core::providers::assembly::StreamingChoice;
use atomic_core::providers::assembly::StreamingDelta;
use atomic_core::providers::assembly::StreamingFunction;
use atomic_core::providers::assembly::StreamingResponse;
use atomic_core::providers::assembly::StreamingToolCall;
use atomic_core::providers::error::ProviderError;
use atomic_core::providers::ollama::ChatResponse;
use atomic_core::providers::ollama::OllamaStream;
use atomic_core::providers::ollama::ResponseFunctionCall;
use atomic_core::providers::ollama::ResponseMessage;
use atomic_core::providers::ollama::ResponseToolCall;
use atomic_core::providers::types::CompletionResponse;
use atomic_core::providers::types::StreamDelta;

/// Decodes a frame of a streamed completion.
fn frame_of(payload: &str) -> Option<StreamingResponse> {
    let value: serde_json::Value = serde_json::from_str(payload).ok()?;
    let text = |value: &serde_json::Value, key: &str| value[key].as_str().map(str::to_string);
    let mut choices = Vec::new();
    for choice in value["choices"].as_array()? {
        let delta = &choice["delta"];
        let tool_calls = delta["tool_calls"].as_array().map(|calls| {
            calls
                .iter()
                .map(|call| StreamingToolCall {
                    index: call["index"].as_u64().unwrap() as usize,
                    id: text(call, "id"),
                    call_type: text(call, "type"),
                    function: call.get("function").map(|function| StreamingFunction {
                        name: text(function, "name"),
                        arguments: text(function, "arguments"),
                    }),
                })
                .collect()
        });
        choices.push(StreamingChoice {
            delta: StreamingDelta {
                content: text(delta, "content"),
                reasoning_content: text(delta, "reasoning_content"),
                tool_calls,
            },
            finish_reason: text(choice, "finish_reason"),
            native_finish_reason: text(choice, "native_finish_reason"),
        });
    }
    Some(StreamingResponse { choices, provider: text(&value, "provider"), id: text(&value, "id") })
}

/// Decodes a line of an Ollama stream.
fn line_of(payload: &str) -> Option<ChatResponse> {
    let value: serde_json::Value = serde_json::from_str(payload).ok()?;
    let message = &value["message"];
    let tool_calls = message["tool_calls"].as_array().map(|calls| {
        calls
            .iter()
            .map(|call| ResponseToolCall {
                function: ResponseFunctionCall {
                    name: call["function"]["name"].as_str().unwrap().to_string(),
                    arguments: json::parse(&call["function"]["arguments"].to_string()).unwrap(),
                },
            })
            .collect()
    });
    Some(ChatResponse {
        message: ResponseMessage {
            content: message["content"].as_str().unwrap_or("").to_string(),
            tool_calls,
        },
        done: value["done"].as_bool().unwrap_or(false),
    })
}

/// Reads a body of server-sent events, in chunks of `size` bytes.
fn read_events(
    dialect: Dialect,
    body: &str,
    size: usize,
) -> Result<(CompletionResponse, Vec<StreamDelta>), ProviderError> {
    let mut stream = ChatStream::new(dialect);
    let mut deltas = Vec::new();
    for chunk in body.as_bytes().chunks(size) {
        stream.feed(&chunk.to_vec());
        loop {
            match stream.next() {
                StreamStep::Wait => break,
                StreamStep::Closed(delta) => deltas.push(delta),
                StreamStep::Payload(payload) => {
                    if let Some(frame) = frame_of(&payload) {
                        deltas.extend(stream.deliver(&frame));
                    }
                }
            }
        }
    }
    let (last, response) = stream.finish(None)?;
    deltas.extend(last);
    Ok((response, deltas))
}

/// Reads a body of one object per line, in chunks of `size` bytes.
fn read_lines(body: &str, size: usize) -> (CompletionResponse, Vec<StreamDelta>) {
    let mut stream = OllamaStream::new();
    let mut deltas = Vec::new();
    for chunk in body.as_bytes().chunks(size) {
        stream.feed(&chunk.to_vec());
        while let Some(payload) = stream.next() {
            if let Some(frame) = line_of(&payload) {
                deltas.extend(stream.deliver(&frame));
            }
        }
    }
    (stream.finish(), deltas)
}

/// The answer to a stream does not depend on how its bytes arrive.
fn openrouter(script: &str) -> (CompletionResponse, Vec<StreamDelta>) {
    let whole = read_events(Dialect::OpenRouter, script, script.len()).expect("streaming completion");
    let bytewise = read_events(Dialect::OpenRouter, script, 1).expect("streaming completion");
    assert_eq!(format!("{whole:?}"), format!("{bytewise:?}"));
    whole
}

fn compatible(script: &str) -> (CompletionResponse, Vec<StreamDelta>) {
    read_events(Dialect::Compatible, script, 7).expect("streaming completion")
}

fn tool_arg_deltas(deltas: &[StreamDelta]) -> Vec<(usize, String)> {
    deltas
        .iter()
        .filter_map(|delta| match delta {
            StreamDelta::ToolCallArguments { index, arguments } => Some((*index, arguments.clone())),
            _ => None,
        })
        .collect()
}

fn tool_starts(deltas: &[StreamDelta]) -> Vec<(usize, String, String)> {
    deltas
        .iter()
        .filter_map(|delta| match delta {
            StreamDelta::ToolCallStart { index, id, name } => Some((*index, id.clone(), name.clone())),
            _ => None,
        })
        .collect()
}

fn content_deltas(deltas: &[StreamDelta]) -> Vec<String> {
    deltas
        .iter()
        .filter_map(|delta| match delta {
            StreamDelta::Content(text) => Some(text.clone()),
            _ => None,
        })
        .collect()
}

fn closes(deltas: &[StreamDelta]) -> usize {
    deltas.iter().filter(|d| matches!(d, StreamDelta::Done { .. })).count()
}

#[test]
fn tool_call_arguments_accumulate_across_deltas() {
    let script = [
        r#"data: {"choices":[{"delta":{"tool_calls":[{"index":0,"id":"call_1","type":"function","function":{"name":"search_atoms","arguments":""}}]},"finish_reason":null}]}"#,
        "\n\n",
        r#"data: {"choices":[{"delta":{"tool_calls":[{"index":0,"function":{"arguments":"{\"query\":"}}]},"finish_reason":null}]}"#,
        "\n\n",
        r#"data: {"choices":[{"delta":{"tool_calls":[{"index":0,"function":{"arguments":"\"pelic"}}]},"finish_reason":null}]}"#,
        "\n\n",
        r#"data: {"choices":[{"delta":{"tool_calls":[{"index":0,"function":{"arguments":"ans\"}"}}]},"finish_reason":null}]}"#,
        "\n\n",
        r#"data: {"choices":[{"delta":{},"finish_reason":"tool_calls"}]}"#,
        "\n\n",
        "data: [DONE]\n\n",
    ]
    .concat();
    let (response, deltas) = openrouter(&script);
    let calls = response.tool_calls.expect("a tool call");
    assert_eq!(calls.len(), 1, "fragments are one call, not four");
    assert_eq!(calls[0].id, "call_1");
    assert_eq!(calls[0].get_name(), Some("search_atoms"));
    assert_eq!(
        calls[0].get_arguments(),
        Some(r#"{"query":"pelicans"}"#),
        "the argument string must reassemble in order"
    );
    assert_eq!(response.finish_reason.as_deref(), Some("tool_calls"));
    assert_eq!(
        tool_starts(&deltas),
        vec![(0, "call_1".to_string(), "search_atoms".to_string())]
    );
    let forwarded = tool_arg_deltas(&deltas);
    assert!(
        forwarded.iter().all(|(index, _)| *index == 0),
        "one call means one index: {forwarded:?}"
    );
    let joined: String = forwarded.into_iter().map(|(_, args)| args).collect();
    assert_eq!(joined, r#"{"query":"pelicans"}"#);
}

#[test]
fn parallel_tool_calls_are_kept_apart_by_index() {
    let script = [
        r#"data: {"choices":[{"delta":{"tool_calls":[{"index":0,"id":"call_a","type":"function","function":{"name":"first","arguments":"{\"a\":"}}]},"finish_reason":null}]}"#,
        "\n\n",
        r#"data: {"choices":[{"delta":{"tool_calls":[{"index":1,"id":"call_b","type":"function","function":{"name":"second","arguments":"{\"b\":"}}]},"finish_reason":null}]}"#,
        "\n\n",
        r#"data: {"choices":[{"delta":{"tool_calls":[{"index":0,"function":{"arguments":"1}"}}]},"finish_reason":null}]}"#,
        "\n\n",
        r#"data: {"choices":[{"delta":{"tool_calls":[{"index":1,"function":{"arguments":"2}"}}]},"finish_reason":null}]}"#,
        "\n\n",
        r#"data: {"choices":[{"delta":{},"finish_reason":"tool_calls"}]}"#,
        "\n\n",
        "data: [DONE]\n\n",
    ]
    .concat();
    let (response, deltas) = openrouter(&script);
    let calls = response.tool_calls.expect("two tool calls");
    assert_eq!(calls.len(), 2);
    assert_eq!(calls[0].id, "call_a");
    assert_eq!(calls[0].get_name(), Some("first"));
    assert_eq!(calls[0].get_arguments(), Some(r#"{"a":1}"#));
    assert_eq!(calls[1].id, "call_b");
    assert_eq!(calls[1].get_name(), Some("second"));
    assert_eq!(calls[1].get_arguments(), Some(r#"{"b":2}"#));
    assert_eq!(
        tool_starts(&deltas),
        vec![
            (0, "call_a".to_string(), "first".to_string()),
            (1, "call_b".to_string(), "second".to_string()),
        ]
    );
}

#[test]
fn argument_fragments_before_the_naming_frame_are_not_lost() {
    let script = [
        r#"data: {"choices":[{"delta":{"tool_calls":[{"index":0,"function":{"arguments":"{\"q\":"}}]},"finish_reason":null}]}"#,
        "\n\n",
        r#"data: {"choices":[{"delta":{"tool_calls":[{"index":0,"id":"call_late","type":"function","function":{"name":"search_atoms","arguments":"1}"}}]},"finish_reason":null}]}"#,
        "\n\n",
        "data: [DONE]\n\n",
    ]
    .concat();
    let (response, deltas) = openrouter(&script);
    let calls = response.tool_calls.expect("a tool call");
    assert_eq!(calls.len(), 1);
    assert_eq!(calls[0].id, "call_late");
    assert_eq!(calls[0].get_arguments(), Some(r#"{"q":1}"#));
    assert_eq!(
        tool_starts(&deltas),
        vec![(0, "call_late".to_string(), "search_atoms".to_string())],
        "the start fires once the call is nameable, not before"
    );
}

#[test]
fn routing_metadata_and_native_finish_reason_survive() {
    let script = [
        r#"data: {"id":"gen-abc123","provider":"Anthropic","choices":[{"delta":{"content":"partial "},"finish_reason":null}]}"#,
        "\n\n",
        r#"data: {"choices":[{"delta":{"content":"answer"},"finish_reason":null}]}"#,
        "\n\n",
        r#"data: {"choices":[{"delta":{},"finish_reason":"stop","native_finish_reason":"max_tokens"}]}"#,
        "\n\n",
        "data: [DONE]\n\n",
    ]
    .concat();
    let (response, deltas) = openrouter(&script);
    assert_eq!(response.content, "partial answer");
    assert_eq!(response.upstream_provider.as_deref(), Some("Anthropic"));
    assert_eq!(response.generation_id.as_deref(), Some("gen-abc123"));
    assert_eq!(response.finish_reason.as_deref(), Some("stop"));
    assert_eq!(
        response.native_finish_reason.as_deref(),
        Some("max_tokens"),
        "a truncation hidden behind a normalized `stop` must still be visible"
    );
    assert_eq!(content_deltas(&deltas), vec!["partial ", "answer"]);
    assert!(matches!(
        deltas.last(),
        Some(StreamDelta::Done { finish_reason }) if finish_reason.as_deref() == Some("stop")
    ));
}

#[test]
fn unparseable_frames_are_skipped_rather_than_failing_the_stream() {
    let script = [
        ": OPENROUTER PROCESSING\n\n",
        r#"data: {"choices":[{"delta":{"content":"kept"},"finish_reason":null}]}"#,
        "\n\n",
        "data: {not json at all}\n\n",
        r#"data: {"choices":[{"delta":{},"finish_reason":"stop"}]}"#,
        "\n\n",
        "data: [DONE]\n\n",
    ]
    .concat();
    let (response, deltas) = openrouter(&script);
    assert_eq!(response.content, "kept");
    assert_eq!(response.finish_reason.as_deref(), Some("stop"));
    assert_eq!(closes(&deltas), 1);
}

#[test]
fn a_stream_without_the_done_sentinel_still_completes() {
    let script = [
        r#"data: {"choices":[{"delta":{"content":"all there is"},"finish_reason":null}]}"#,
        "\n\n",
        r#"data: {"choices":[{"delta":{},"finish_reason":"stop"}]}"#,
        "\n\n",
    ]
    .concat();
    let (response, deltas) = openrouter(&script);
    assert_eq!(response.content, "all there is");
    assert_eq!(response.finish_reason.as_deref(), Some("stop"));
    assert!(
        matches!(
            deltas.last(),
            Some(StreamDelta::Done { finish_reason }) if finish_reason.as_deref() == Some("stop")
        ),
        "the close has to be synthesized: {deltas:?}"
    );
    assert_eq!(closes(&deltas), 1, "exactly one close, never a duplicate");
}

#[test]
fn the_done_sentinel_closes_the_stream_exactly_once() {
    let script = [
        r#"data: {"choices":[{"delta":{"content":"hi"},"finish_reason":"stop"}]}"#,
        "\n\n",
        "data: [DONE]\n\n",
    ]
    .concat();
    let (response, deltas) = openrouter(&script);
    assert_eq!(response.content, "hi");
    assert_eq!(closes(&deltas), 1);
}

#[test]
fn llm_a_stream_without_the_done_sentinel_still_completes() {
    let script = [
        r#"data: {"choices":[{"delta":{"content":"all there is"},"finish_reason":null}]}"#,
        "\n\n",
        r#"data: {"choices":[{"delta":{},"finish_reason":"stop"}]}"#,
        "\n\n",
    ]
    .concat();
    let (response, deltas) = compatible(&script);
    assert_eq!(response.content, "all there is");
    assert_eq!(response.finish_reason.as_deref(), Some("stop"));
    assert!(
        matches!(
            deltas.last(),
            Some(StreamDelta::Done { finish_reason }) if finish_reason.as_deref() == Some("stop")
        ),
        "the close has to be synthesized: {deltas:?}"
    );
    assert_eq!(closes(&deltas), 1, "exactly one close, never a duplicate");
}

#[test]
fn llm_the_done_sentinel_closes_the_stream_exactly_once() {
    let script = [
        r#"data: {"choices":[{"delta":{"content":"hi"},"finish_reason":"stop"}]}"#,
        "\n\n",
        "data: [DONE]\n\n",
    ]
    .concat();
    let (response, deltas) = compatible(&script);
    assert_eq!(response.content, "hi");
    assert_eq!(closes(&deltas), 1);
}

#[test]
fn llm_tool_call_arguments_accumulate_across_deltas() {
    let script = [
        r#"data: {"choices":[{"delta":{"tool_calls":[{"index":0,"id":"call_1","type":"function","function":{"name":"search_atoms","arguments":"{\"query\""}}]},"finish_reason":null}]}"#,
        "\n\n",
        r#"data: {"choices":[{"delta":{"tool_calls":[{"index":0,"function":{"arguments":":\"pelicans\"}"}}]},"finish_reason":null}]}"#,
        "\n\n",
        r#"data: {"choices":[{"delta":{},"finish_reason":"tool_calls"}]}"#,
        "\n\n",
        "data: [DONE]\n\n",
    ]
    .concat();
    let (response, deltas) = compatible(&script);
    let calls = response.tool_calls.expect("a tool call");
    assert_eq!(calls.len(), 1);
    assert_eq!(calls[0].id, "call_1");
    assert_eq!(calls[0].get_name(), Some("search_atoms"));
    assert_eq!(calls[0].get_arguments(), Some(r#"{"query":"pelicans"}"#));
    assert_eq!(response.finish_reason.as_deref(), Some("tool_calls"));
    assert_eq!(tool_starts(&deltas).len(), 1, "announced once, not once per fragment");
}

#[test]
fn reasoning_content_stands_in_for_an_empty_content_field() {
    let script = [
        r#"data: {"choices":[{"delta":{"content":"","reasoning_content":"thought "},"finish_reason":null}]}"#,
        "\n\n",
        r#"data: {"choices":[{"delta":{"reasoning_content":"then answer"},"finish_reason":null}]}"#,
        "\n\n",
        r#"data: {"choices":[{"delta":{},"finish_reason":"stop"}]}"#,
        "\n\n",
        "data: [DONE]\n\n",
    ]
    .concat();
    let (response, deltas) = compatible(&script);
    assert_eq!(response.content, "thought then answer");
    assert_eq!(content_deltas(&deltas), vec!["thought ", "then answer"]);
}

#[test]
fn content_wins_over_reasoning_content_when_both_arrive() {
    let script = [
        r#"data: {"choices":[{"delta":{"content":"real","reasoning_content":"scratch"},"finish_reason":null}]}"#,
        "\n\n",
        "data: [DONE]\n\n",
    ]
    .concat();
    let (response, deltas) = compatible(&script);
    assert_eq!(response.content, "real");
    assert_eq!(content_deltas(&deltas), vec!["real"]);
}

#[test]
fn ndjson_content_frames_are_forwarded_one_at_a_time() {
    let script = [
        r#"{"model":"llama3.2","message":{"role":"assistant","content":"Mock "},"done":false}"#,
        "\n",
        r#"{"model":"llama3.2","message":{"role":"assistant","content":"answer"},"done":false}"#,
        "\n",
        r#"{"model":"llama3.2","message":{"role":"assistant","content":""},"done":true,"done_reason":"stop"}"#,
        "\n",
    ]
    .concat();
    let (response, deltas) = read_lines(&script, 5);
    assert_eq!(response.content, "Mock answer");
    assert_eq!(content_deltas(&deltas), vec!["Mock ", "answer"]);
    assert!(
        matches!(deltas.last(), Some(StreamDelta::Done { .. })),
        "the `done` frame closes the stream: {deltas:?}"
    );
    assert!(response.tool_calls.is_none());
}

#[test]
fn object_valued_arguments_are_stringified_and_an_id_is_minted() {
    let script = [
        r#"{"model":"llama3.2","message":{"role":"assistant","content":"","tool_calls":[{"function":{"name":"search_atoms","arguments":{"query":"pelicans","limit":5}}}]},"done":false}"#,
        "\n",
        r#"{"model":"llama3.2","message":{"role":"assistant","content":""},"done":true,"done_reason":"stop"}"#,
        "\n",
    ]
    .concat();
    let (response, deltas) = read_lines(&script, 5);
    let calls = response.tool_calls.expect("a tool call");
    assert_eq!(calls.len(), 1);
    assert_eq!(calls[0].get_name(), Some("search_atoms"));
    let arguments: serde_json::Value =
        serde_json::from_str(calls[0].get_arguments().expect("arguments"))
            .expect("arguments must be a JSON string the loop can parse");
    assert_eq!(arguments["query"], serde_json::Value::from("pelicans"));
    assert_eq!(arguments["limit"], serde_json::Value::from(5));
    assert_eq!(arguments.as_object().unwrap().len(), 2);
    assert!(!calls[0].id.is_empty(), "an id has to be minted; the wire sends none");
    assert_eq!(calls[0].call_type.as_deref(), Some("function"));
    let starts = tool_starts(&deltas);
    assert_eq!(starts.len(), 1);
    assert_eq!((starts[0].0, starts[0].2.as_str()), (0, "search_atoms"));
}

#[test]
fn several_tool_calls_arrive_in_order_with_distinct_ids() {
    let script = [
        r#"{"message":{"role":"assistant","content":"","tool_calls":[{"function":{"name":"first","arguments":{"a":1}}},{"function":{"name":"second","arguments":{"b":2}}}]},"done":false}"#,
        "\n",
        r#"{"message":{"role":"assistant","content":"","tool_calls":[{"function":{"name":"third","arguments":{"c":3}}}]},"done":false}"#,
        "\n",
        r#"{"message":{"role":"assistant","content":""},"done":true}"#,
        "\n",
    ]
    .concat();
    let (response, deltas) = read_lines(&script, 5);
    let calls = response.tool_calls.expect("three tool calls");
    assert_eq!(calls.len(), 3);
    let names: Vec<_> = calls.iter().filter_map(|c| c.get_name()).collect();
    assert_eq!(names, vec!["first", "second", "third"]);
    let ids: std::collections::HashSet<_> = calls.iter().map(|c| c.id.as_str()).collect();
    assert_eq!(ids.len(), 3, "minted ids must not collide: {calls:?}");
    let starts: Vec<(usize, String)> =
        tool_starts(&deltas).into_iter().map(|(index, _, name)| (index, name)).collect();
    assert_eq!(
        starts,
        vec![
            (0, "first".to_string()),
            (1, "second".to_string()),
            (2, "third".to_string()),
        ]
    );
}

#[test]
fn a_frame_carrying_both_prose_and_a_tool_call_surfaces_both() {
    let script = [
        r#"{"message":{"role":"assistant","content":"Looking it up. ","tool_calls":[{"function":{"name":"search_atoms","arguments":{"query":"x"}}}]},"done":false}"#,
        "\n",
        r#"{"message":{"role":"assistant","content":""},"done":true}"#,
        "\n",
    ]
    .concat();
    let (response, deltas) = read_lines(&script, 5);
    assert_eq!(response.content, "Looking it up. ");
    assert_eq!(content_deltas(&deltas), vec!["Looking it up. "]);
    assert_eq!(response.tool_calls.expect("a tool call").len(), 1);
}

#[test]
fn blank_and_unreadable_lines_are_skipped() {
    let script = [
        "\n",
        r#"{"message":{"role":"assistant","content":"kept"},"done":false}"#,
        "\n",
        "{not json at all}\n",
        "\n",
        r#"{"message":{"role":"assistant","content":""},"done":true}"#,
        "\n",
    ]
    .concat();
    let (response, deltas) = read_lines(&script, 5);
    assert_eq!(response.content, "kept");
    assert_eq!(closes(&deltas), 1);
}

#[test]
fn a_stream_that_delivers_nothing_is_a_failure_for_one_dialect_and_an_empty_answer_for_the_other() {
    let padding = ": PROCESSING\n\n\n   \n";
    let error = read_events(Dialect::OpenRouter, padding, 4).expect_err("nothing was delivered");
    assert!(error.is_retryable());
    let (response, deltas) = compatible(padding);
    assert_eq!(response.content, "");
    assert_eq!(closes(&deltas), 1);
    // The sentinel alone is an answer, if an empty one.
    let (response, _) = openrouter("data: [DONE]\n\n");
    assert_eq!(response.content, "");
}

#[test]
fn a_call_named_before_it_has_an_id_is_announced_when_both_are_known() {
    let script = [
        r#"data: {"choices":[{"delta":{"tool_calls":[{"index":0,"function":{"name":"search_atoms","arguments":"{"}}]},"finish_reason":null}]}"#,
        "\n\n",
        r#"data: {"choices":[{"delta":{"tool_calls":[{"index":0,"id":"call_1","function":{"arguments":"}"}}]},"finish_reason":null}]}"#,
        "\n\n",
        r#"data: {"choices":[{"delta":{"tool_calls":[{"index":0,"id":"call_2","function":{"name":"other"}}]},"finish_reason":null}]}"#,
        "\n\n",
        "data: [DONE]\n\n",
    ]
    .concat();
    for (response, deltas) in [openrouter(&script), compatible(&script)] {
        let started = vec![(0, "call_1".to_string(), "search_atoms".to_string())];
        assert_eq!(tool_starts(&deltas), started, "once, and not again for another id");
        let calls = response.tool_calls.expect("a tool call");
        assert_eq!(calls.len(), 1);
        assert_eq!(calls[0].get_name(), Some("search_atoms"));
        assert_eq!(calls[0].get_arguments(), Some("{}"));
    }
}

#[test]
fn nothing_counts_behind_the_sentinel() {
    let first = [
        r#"data: {"choices":[{"delta":{"content":"hi"},"finish_reason":"stop"}]}"#,
        "\n\ndata: [DONE]\n\n",
    ]
    .concat();
    let second = [
        r#"data: {"choices":[{"delta":{"content":" there"},"finish_reason":"length"}]}"#,
        "\n\ndata: [DONE]\n\n",
    ]
    .concat();
    let script = [first.as_str(), second.as_str()].concat();
    for dialect in [Dialect::OpenRouter, Dialect::Compatible] {
        for size in [first.len(), script.len(), 1] {
            let (response, deltas) = read_events(dialect, &script, size).expect("an answer");
            assert_eq!(response.content, "hi");
            assert_eq!(closes(&deltas), 1, "closed once, in chunks of {size}");
            assert!(matches!(
                deltas.last(),
                Some(StreamDelta::Done { finish_reason }) if *finish_reason == response.finish_reason
            ));
            assert_eq!(response.finish_reason.as_deref(), Some("stop"));
        }
    }
}

#[test]
fn nothing_counts_behind_the_frame_that_ends_a_stream() {
    let script = [
        r#"{"message":{"role":"assistant","content":"hi"},"done":true}"#,
        "\n",
        r#"{"message":{"role":"assistant","content":" there"},"done":true}"#,
        "\n",
    ]
    .concat();
    for size in [script.len(), 1] {
        let (response, deltas) = read_lines(&script, size);
        assert_eq!(response.content, "hi");
        assert_eq!(closes(&deltas), 1);
        assert!(matches!(deltas.last(), Some(StreamDelta::Done { .. })));
    }
}
