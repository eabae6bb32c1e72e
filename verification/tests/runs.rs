use atomic_core::agent_runtime::context::MessageTokens;
use atomic_core::agent_runtime::run::messages_are_balanced;
use atomic_core::agent_runtime::run::unknown_tool;
use atomic_core::agent_runtime::run::AgentRun;
use atomic_core::agent_runtime::run::Next;
use atomic_core::agent_runtime::run::RunConfig;
use atomic_core::agent_runtime::run::RunError;
use atomic_core::agent_runtime::run::RunEvent;
use atomic_core::agent_runtime::run::RunOutcome;
use atomic_core::agent_runtime::run::StopReason;
use atomic_core::agent_runtime::run::Termination;
use atomic_core::agent_runtime::tools::ToolRegistry;
use atomic_core::agent_runtime::tools::ToolResult;
use atomic_core::json::Json;
use atomic_core::mock_ai::responses::InjectedFailure;
use atomic_core::mock_ai::responses::MockBody;
use atomic_core::mock_ai::server::Endpoint;
use atomic_core::mock_ai::server::MockAiServer;
use atomic_core::mock_ai::streams::CallIds;
use atomic_core::providers::chat_api;
use atomic_core::providers::ollama;
use atomic_core::providers::types::GenerationParams;
use atomic_core::providers::types::Message;
use atomic_core::providers::types::ToolDefinition;
use atomic_core::json;
use atomic_core::providers::assembly::ChatStream;
use atomic_core::providers::assembly::Dialect;
use atomic_core::providers::assembly::StreamStep;
use atomic_core::providers::assembly::StreamingChoice;
use atomic_core::providers::assembly::StreamingDelta;
use atomic_core::providers::assembly::StreamingFunction;
use atomic_core::providers::assembly::StreamingResponse;
use atomic_core::providers::assembly::StreamingToolCall;
use atomic_core::providers::error::ProviderError;
use atomic_core::providers::ollama::ChatResponse;
use atomic_core::providers::ollama::OllamaStream;
use atomic_core::providers::ollama::ResponseFunctionCall;
use atomic_core::providers::ollama::ResponseMessage;
use atomic_core::providers::ollama::ResponseToolCall;
use atomic_core::providers::types::CompletionResponse;
use atomic_core::providers::types::StreamDelta;

/// Decodes a frame of a streamed completion.
fn frame_of(payload: &str) -> Option<StreamingResponse> {
    let value: serde_json::Value = serde_json::from_str(payload).ok()?;
    let text = |value: &serde_json::Value, key: &str| value[key].as_str().map(str::to_string);
    let mut choices = Vec::new();
    for choice in value["choices"].as_array()? {
        let delta = &choice["delta"];
        let tool_calls = delta["tool_calls"].as_array().map(|calls| {
            calls
                .iter()
                .map(|call| StreamingToolCall {
                    index: call["index"].as_u64().unwrap() as usize,
                    id: text(call, "id"),
                    call_type: text(call, "type"),
                    function: call.get("function").map(|function| StreamingFunction {
                        name: text(function, "name"),
                        arguments: text(function, "arguments"),
                    }),
                })
                .collect()
        });
        choices.push(StreamingChoice {
            delta: StreamingDelta {
                content: text(delta, "content"),
                reasoning_content: text(delta, "reasoning_content"),
                tool_calls,
            },
            finish_reason: text(choice, "finish_reason"),
            native_finish_reason: text(choice, "native_finish_reason"),
        });
    }
    Some(StreamingResponse { choices, provider: text(&value, "provider"), id: text(&value, "id") })
}

/// Decodes a line of an Ollama stream.
fn line_of(payload: &str) -> Option<ChatResponse> {
    let value: serde_json::Value = serde_json::from_str(payload).ok()?;
    let message = &value["message"];
    let tool_calls = message["tool_calls"].as_array().map(|calls| {
        calls
            .iter()
            .map(|call| ResponseToolCall {
                function: ResponseFunctionCall {
                    name: call["function"]["name"].as_str().unwrap().to_string(),
                    arguments: json::parse(&call["function"]["arguments"].to_string()).unwrap(),
                },
            })
            .collect()
    });
    Some(ChatResponse {
        message: ResponseMessage {
            content: message["content"].as_str().unwrap_or("").to_string(),
            tool_calls,
        },
        done: value["done"].as_bool().unwrap_or(false),
    })
}

/// Reads a body of server-sent events, in chunks of `size` bytes.
fn read_events(
    dialect: Dialect,
    body: &str,
    size: usize,
) -> Result<(CompletionResponse, Vec<StreamDelta>), ProviderError> {
    let mut stream = ChatStream::new(dialect);
    let mut deltas = Vec::new();
    for chunk in body.as_bytes().chunks(size) {
        stream.feed(&chunk.to_vec());
        loop {
            match stream.next() {
                StreamStep::Wait => break,
                StreamStep::Closed(delta) => deltas.push(delta),
                StreamStep::Payload(payload) => {
                    if let Some(frame) = frame_of(&payload) {
                        deltas.extend(stream.deliver(&frame));
                    }
                }
            }
        }
    }
    let (last, response) = stream.finish(None)?;
    deltas.extend(last);
    Ok((response, deltas))
}

/// Reads a body of one object per line, in chunks of `size` bytes.
fn read_lines(body: &str, size: usize) -> (CompletionResponse, Vec<StreamDelta>) {
    let mut stream = OllamaStream::new();
    let mut deltas = Vec::new();
    for chunk in body.as_bytes().chunks(size) {
        stream.feed(&chunk.to_vec());
        while let Some(payload) = stream.next() {
            if let Some(frame) = line_of(&payload) {
                deltas.extend(stream.deliver(&frame));
            }
        }
    }
    (stream.finish(), deltas)
}

/// The wire formats that a provider may speak.
#[derive(Clone, Copy, Debug, PartialEq)]
enum Provider {
    OpenRouter,
    Compatible,
    Ollama,
}

const PROVIDERS: [Provider; 3] = [Provider::OpenRouter, Provider::Compatible, Provider::Ollama];

fn text(value: &str) -> Json {
    Json::Text(value.to_string())
}

/// A streaming request as it goes over the wire, as far as the mock reads it.
fn request(messages: &[Message], tools: &[ToolDefinition]) -> Vec<u8> {
    let messages = messages
        .iter()
        .map(|message| {
            Json::Object(vec![
                ("role".to_string(), text(message.role.as_str())),
                ("content".to_string(), text(message.content.as_deref().unwrap_or(""))),
            ])
        })
        .collect();
    let mut fields = vec![
        ("model".to_string(), text("mock-model")),
        ("stream".to_string(), Json::Bool(true)),
        ("messages".to_string(), Json::List(messages)),
    ];
    if !tools.is_empty() {
        let tools = tools.iter().map(|tool| text(&tool.name)).collect();
        fields.push(("tools".to_string(), Json::List(tools)));
    }
    json::print(&Json::Object(fields)).into_bytes()
}

struct Host {
    mock: MockAiServer,
    ids: CallIds,
    provider: Provider,
    events: Vec<RunEvent>,
}

impl Host {
    fn new(provider: Provider) -> Host {
        Host {
            mock: MockAiServer::new("http://mock"),
            ids: CallIds { streamed: 0, research: 0 },
            provider,
            events: Vec::new(),
        }
    }

    /// One streaming call.
    fn call(
        &mut self,
        messages: &[Message],
        tools: &[ToolDefinition],
    ) -> Result<(CompletionResponse, Vec<StreamDelta>), ProviderError> {
        let endpoint = match self.provider {
            Provider::Ollama => Endpoint::Ollama,
            _ => Endpoint::Completions,
        };
        let response = self.mock.respond(endpoint, &request(messages, tools), &mut self.ids);
        match response.body {
            MockBody::Raw { text, .. } => match self.provider {
                Provider::OpenRouter => read_events(Dialect::OpenRouter, &text, 13),
                Provider::Compatible => read_events(Dialect::Compatible, &text, 13),
                Provider::Ollama => Ok(read_lines(&text, 13)),
            },
            MockBody::Json(json) => {
                let body = json::print(&json);
                Err(match self.provider {
                    Provider::Ollama => ollama::refused(response.status, body),
                    _ => chat_api::refused(response.status, None, body),
                })
            }
            MockBody::Empty => panic!("no body"),
        }
    }

    /// Runs to the end. `cancel_at` raises the flag before the so-manyth call
    /// is answered.
    fn run(
        &mut self,
        config: RunConfig,
        tools: &ToolRegistry<&'static str>,
        messages: Vec<Message>,
        cancel_at: Option<usize>,
    ) -> Result<RunOutcome, RunError> {
        let mut run = AgentRun::new(config, messages);
        let mut cancelled = false;
        let mut calls = 0;
        loop {
            match run.poll(cancelled) {
                Next::Continue => {}
                Next::Call => {
                    calls += 1;
                    if cancel_at == Some(calls) {
                        cancelled = true;
                        run.on_interrupt();
                        continue;
                    }
                    let prompt = run.prompt(&no_counts(run.messages().len()));
                    let (response, deltas) = self
                        .call(&prompt, tools.definitions())
                        .map_err(|error| RunError::provider(&error))?;
                    for delta in &deltas {
                        self.events.extend(run.on_delta(delta, cancelled));
                    }
                    run.on_response(response);
                }
                Next::Execute(start) => {
                    let result = match &start {
                        RunEvent::ToolStart { tool_name, input, .. } => match tools.get(tool_name) {
                            Some(_) => {
                                let note = input.get_str("note").unwrap_or("<missing>");
                                ToolResult::ok(format!("echo: {note}"), 1)
                            }
                            None => unknown_tool(tool_name),
                        },
                        other => panic!("{other:?}"),
                    };
                    self.events.push(start);
                    self.events.extend(run.on_result(result, "t0", "t1"));
                }
                Next::Salvage => {
                    let prompt = run.prompt(&no_counts(run.messages().len()));
                    let content = self.call(&prompt, &[]).ok().map(|(response, _)| response.content);
                    run.on_salvage(content);
                }
                Next::Finished => return Ok(run.outcome().expect("a finished run has an outcome")),
            }
        }
    }
}

fn no_counts(n: usize) -> Vec<MessageTokens> {
    (0..n).map(|_| MessageTokens { content: 1, calls: Vec::new() }).collect()
}

fn chat_config(max_iterations: usize, salvage_on_cap: bool) -> RunConfig {
    RunConfig {
        model: "mock-model".to_string(),
        params: GenerationParams {
            temperature: Some(0.7f32.to_bits()),
            max_tokens: Some(4000),
            structured_output: None,
            minimize_reasoning: false,
        },
        max_iterations,
        termination: Termination::NoToolCalls,
        streaming: true,
        salvage_on_cap,
        context_length: None,
    }
}

fn echo() -> ToolRegistry<&'static str> {
    ToolRegistry::new()
        .with("echo", ToolDefinition::new("echo", "Echo the note back", Json::Object(vec![])))
}

fn note(value: &str) -> Json {
    Json::Object(vec![("note".to_string(), text(value))])
}

fn deltas(events: &[RunEvent]) -> Vec<String> {
    events
        .iter()
        .filter_map(|event| match event {
            RunEvent::Delta { text } => Some(text.clone()),
            _ => None,
        })
        .collect()
}

#[test]
fn streamed_text_arrives_one_event_per_chunk_on_every_dialect() {
    for provider in PROVIDERS {
        let mut host = Host::new(provider);
        let outcome = host
            .run(
                chat_config(4, true),
                &ToolRegistry::new(),
                vec![Message::user("what did I write about pelicans?")],
                None,
            )
            .expect("run");
        assert_eq!(outcome.stop, StopReason::Answered, "{provider:?}");
        let deltas = deltas(&host.events);
        assert!(deltas.len() > 1, "{provider:?}: {deltas:?}");
        assert_eq!(deltas.concat(), outcome.content, "{provider:?}");
        assert_eq!(
            outcome.content,
            "Mock assistant reply grounded in the search results. [1]"
        );
    }
}

#[test]
fn streamed_tool_calls_reach_the_loop_intact_on_every_dialect() {
    for provider in PROVIDERS {
        let mut host = Host::new(provider);
        host.mock.set_chat_tool_call(Some(("echo".to_string(), note("pelicans"))));
        let outcome = host
            .run(chat_config(4, true), &echo(), vec![Message::user("echo something")], None)
            .expect("run");
        assert_eq!(outcome.stop, StopReason::Answered, "{provider:?}");
        assert_eq!(outcome.tool_calls.len(), 1, "{provider:?}: one tool round then an answer");
        let call = &outcome.tool_calls[0];
        assert_eq!(call.name, "echo", "{provider:?}");
        assert_eq!(call.input, note("pelicans"), "{provider:?}");
        assert!(!call.failed, "{provider:?}: {}", call.output);
        assert_eq!(call.output, "echo: pelicans", "{provider:?}");
        assert!(!call.id.is_empty(), "{provider:?}");
        let started: Vec<(String, Json)> = host
            .events
            .iter()
            .filter_map(|event| match event {
                RunEvent::ToolStart { tool_name, input, .. } => {
                    Some((tool_name.clone(), input.clone()))
                }
                _ => None,
            })
            .collect();
        assert_eq!(started, vec![("echo".to_string(), note("pelicans"))], "{provider:?}");
        assert!(outcome.content.contains("Mock assistant reply"), "{provider:?}");
        assert!(messages_are_balanced(&outcome.messages), "{provider:?}");
    }
}

#[test]
fn iteration_cap_salvages_with_a_tool_free_call_on_every_dialect() {
    for provider in PROVIDERS {
        let mut host = Host::new(provider);
        // A model that never stops researching.
        host.mock.set_chat_force_tool_calls(true);
        host.mock.set_chat_tool_call(Some(("echo".to_string(), note("again"))));
        let outcome = host
            .run(chat_config(2, true), &echo(), vec![Message::user("keep digging")], None)
            .expect("run");
        assert_eq!(outcome.stop, StopReason::IterationCap, "{provider:?}");
        assert_eq!(outcome.tool_calls.len(), 2, "{provider:?}: the budget is spent before salvage");
        assert!(
            outcome.content.contains("Mock assistant reply"),
            "{provider:?}: salvage must produce prose, got {:?}",
            outcome.content
        );
        let bodies = host.mock.chat_request_bodies();
        assert_eq!(bodies.len(), 3, "{provider:?}: two capped turns plus one salvage");
        let salvage = bodies.last().expect("salvage request");
        assert!(salvage.get("tools").is_none(), "{provider:?}: it must offer no tools");
    }
}

#[test]
fn cancelling_an_in_flight_request_stops_the_run_on_every_dialect() {
    for provider in PROVIDERS {
        let mut host = Host::new(provider);
        let outcome = host
            .run(chat_config(4, true), &echo(), vec![Message::user("start something slow")], Some(1))
            .expect("a cancelled run still returns");
        assert_eq!(outcome.stop, StopReason::Cancelled, "{provider:?}");
        assert!(outcome.tool_calls.is_empty(), "{provider:?}: nothing ran");
        assert_eq!(host.mock.chat_request_count(), 0);
    }
}

#[test]
fn a_failing_provider_is_a_run_error_on_every_dialect() {
    for provider in PROVIDERS {
        let mut host = Host::new(provider);
        host.mock.set_chat_failure(Some(InjectedFailure::Unauthorized));
        let error = host
            .run(chat_config(4, true), &echo(), vec![Message::user("anything")], None)
            .err()
            .expect("a dead provider must fail the run");
        assert!(matches!(error, RunError::Provider(_)), "{provider:?}: got {error:?}");
        assert!(error.to_string().contains("401"), "{provider:?}: {error:?}");
    }
}

#[test]
fn a_call_for_a_tool_that_is_not_there_fails_and_tells_the_model() {
    let mut host = Host::new(Provider::Compatible);
    host.mock.set_chat_tool_call(Some(("missing".to_string(), Json::Object(vec![]))));
    let outcome = host
        .run(chat_config(4, true), &echo(), vec![Message::user("go")], None)
        .expect("run");
    assert_eq!(outcome.tool_calls.len(), 1);
    assert!(outcome.tool_calls[0].failed);
    assert!(outcome.tool_calls[0].output.contains("Unknown tool: missing"));
    let told = outcome.messages.last().unwrap();
    assert!(told.content.as_deref().unwrap().contains("Unknown tool: missing"));
}

#[test]
fn a_sentinel_ends_the_run_after_its_round() {
    let mut host = Host::new(Provider::Ollama);
    host.mock.set_chat_force_tool_calls(true);
    host.mock.set_chat_tool_call(Some(("done".to_string(), Json::Object(vec![]))));
    let mut config = chat_config(5, false);
    config.termination = Termination::Sentinel("done".to_string());
    let tools = echo().with("done", ToolDefinition::new("done", "stop", Json::Object(vec![])));
    let outcome = host.run(config, &tools, vec![Message::user("go")], None).expect("run");
    assert_eq!(outcome.stop, StopReason::Sentinel);
    assert_eq!(outcome.content, "");
    assert_eq!(host.mock.chat_request_count(), 1);
}

#[test]
fn a_run_without_salvage_keeps_what_was_said() {
    let mut host = Host::new(Provider::Compatible);
    host.mock.set_chat_force_tool_calls(true);
    host.mock.set_chat_tool_call(Some(("echo".to_string(), note("x"))));
    let outcome = host
        .run(chat_config(1, false), &echo(), vec![Message::user("go")], None)
        .expect("run");
    assert_eq!(outcome.stop, StopReason::IterationCap);
    assert_eq!(outcome.content, "");
    let outcome = host
        .run(chat_config(0, false), &echo(), vec![Message::user("go")], None)
        .expect("run");
    assert_eq!((outcome.stop, outcome.messages.len()), (StopReason::IterationCap, 1));
}

#[test]
fn arguments_that_are_not_json_count_as_none() {
    let mut run = AgentRun::new(chat_config(2, false), vec![Message::user("go")]);
    assert_eq!(run.poll(false), Next::Call);
    let script = r#"data: {"choices":[{"delta":{"tool_calls":[{"index":0,"id":"c","function":{"name":"echo","arguments":"{broken"}}]},"finish_reason":"tool_calls"}]}"#;
    let (response, _) = read_events(Dialect::Compatible, &format!("{script}\n\n"), 50).unwrap();
    run.on_response(response);
    match run.poll(false) {
        Next::Execute(RunEvent::ToolStart { tool_call_id, tool_name, input }) => {
            assert_eq!((tool_call_id.as_str(), tool_name.as_str()), ("c", "echo"));
            assert_eq!(input, Json::Null);
        }
        other => panic!("{other:?}"),
    }
}

#[test]
fn registration_order_is_preserved_and_names_are_unique() {
    let definition = |name: &str| ToolDefinition::new(name, "echo", Json::Object(vec![]));
    let registry = ToolRegistry::new()
        .with("a", definition("first"))
        .with("b", definition("second"))
        .with("replaced", definition("first"));
    let names: Vec<&str> =
        registry.definitions().iter().map(|definition| definition.name.as_str()).collect();
    assert_eq!(names, vec!["first", "second"]);
    assert_eq!(registry.get("first"), Some(&"replaced"));
    assert_eq!(registry.get("second"), Some(&"b"));
    assert!(registry.get("missing").is_none());
}
