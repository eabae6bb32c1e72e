use atomic_core::json;
use atomic_core::json::Json;
use atomic_core::mock_ai::embeddings::embedding_words;
use atomic_core::mock_ai::embeddings::word_counts;
use atomic_core::mock_ai::requests::count_numbered_sources;
use atomic_core::mock_ai::requests::first_new_source_index;
use atomic_core::mock_ai::responses::InjectedFailure;
use atomic_core::mock_ai::responses::MockBody;
use atomic_core::mock_ai::responses::MockResponse;
use atomic_core::mock_ai::server::Endpoint;
use atomic_core::mock_ai::server::MockAiServer;
use atomic_core::mock_ai::server::SLOW_NANOS;
use atomic_core::mock_ai::streams::CallIds;

fn parse(text: &str) -> Json {
    json::parse(text).expect("JSON")
}

fn server() -> (MockAiServer, CallIds) {
    (MockAiServer::new("http://mock"), CallIds { streamed: 0, research: 0 })
}

fn post(server: &mut MockAiServer, ids: &mut CallIds, body: &str) -> MockResponse {
    server.respond(Endpoint::Completions, &body.as_bytes().to_vec(), ids)
}

/// What the message of a completion holds.
fn content(response: &MockResponse) -> String {
    match &response.body {
        MockBody::Json(json) => json.get("choices").unwrap().as_array().unwrap()[0]
            .get("message")
            .unwrap()
            .get_str("content")
            .unwrap()
            .to_string(),
        other => panic!("{other:?}"),
    }
}

fn raw(response: &MockResponse) -> (String, String) {
    match &response.body {
        MockBody::Raw { text, content_type } => (text.clone(), content_type.clone()),
        other => panic!("{other:?}"),
    }
}

#[test]
fn a_first_streaming_turn_searches_for_what_the_user_said() {
    let (mut mock, mut ids) = server();
    let body = r#"{"model":"m","stream":true,"tools":[{}],"messages":[{"role":"user","content":"old"},{"role":"user","content":"pelicans"}]}"#;
    let response = post(&mut mock, &mut ids, body);
    let (text, content_type) = raw(&response);
    assert_eq!(content_type, "text/event-stream");
    assert_eq!(response.header, Some(("Content-Type".to_string(), "text/event-stream".to_string())));
    assert_eq!(
        text,
        [
            r#"data: {"choices":[{"delta":{"tool_calls":[{"function":{"arguments":"{\"limit\":5,\"query\":\"pelicans\"}","name":"search_atoms"},"id":"call_mock_search_atoms_0","index":0,"type":"function"}]},"finish_reason":null}]}"#,
            "\n\n",
            r#"data: {"choices":[{"delta":{},"finish_reason":"tool_calls"}]}"#,
            "\n\n",
            "data: [DONE]\n\n",
        ]
        .concat()
    );
    assert_eq!(ids.streamed, 1);
    assert_eq!(mock.chat_request_models(), vec!["m".to_string()]);
    assert_eq!(mock.chat_request_bodies(), vec![parse(body)]);
}

#[test]
fn results_or_missing_tools_get_prose() {
    let (mut mock, mut ids) = server();
    let with_results = r#"{"stream":true,"tools":[{}],"messages":[{"role":"tool","content":"x"}]}"#;
    let (text, _) = raw(&post(&mut mock, &mut ids, with_results));
    assert!(text.contains(r#"{"content":"Mock assistant reply "}"#), "{text}");
    mock.set_chat_force_tool_calls(true);
    let (text, _) = raw(&post(&mut mock, &mut ids, with_results));
    assert!(text.contains("call_mock_search_atoms_0"), "{text}");
    assert!(text.contains(r#"\"query\":\"atomic\""#), "nobody asked anything: {text}");
    let (text, _) = raw(&post(&mut mock, &mut ids, r#"{"stream":true,"tools":[]}"#));
    assert!(text.contains("grounded in the search results. [1]"), "{text}");
}

#[test]
fn the_other_dialect_sends_whole_calls_without_ids() {
    let (mut mock, mut ids) = server();
    mock.set_chat_tool_call(Some(("echo".to_string(), parse(r#"{"note":1}"#))));
    let body = br#"{"stream":true,"tools":[{}],"messages":[]}"#.to_vec();
    let response = mock.respond(Endpoint::Ollama, &body, &mut ids);
    let (text, content_type) = raw(&response);
    assert_eq!(content_type, "application/x-ndjson");
    assert_eq!(
        text,
        [
            r#"{"done":false,"message":{"content":"","role":"assistant","tool_calls":[{"function":{"arguments":{"note":1},"name":"echo"}}]},"model":"mock-ollama"}"#,
            "\n",
            r#"{"done":true,"done_reason":"stop","message":{"content":"","role":"assistant"},"model":"mock-ollama"}"#,
            "\n",
        ]
        .concat()
    );
    let plain = mock.respond(Endpoint::Ollama, &b"{}".to_vec(), &mut ids);
    assert!(matches!(plain.body, MockBody::Json(_)));
}

#[test]
fn a_script_reaches_both_endpoints_as_it_stands() {
    let (mut mock, mut ids) = server();
    mock.set_stream_script(Some("whatever"));
    for endpoint in [Endpoint::Completions, Endpoint::Ollama] {
        let response = mock.respond(endpoint, &br#"{"stream":true}"#.to_vec(), &mut ids);
        assert_eq!(raw(&response).0, "whatever");
    }
    mock.set_stream_script(None);
    assert_ne!(raw(&post(&mut mock, &mut ids, r#"{"stream":true}"#)).0, "whatever");
}

#[test]
fn injected_failures_are_served_and_counted() {
    let (mut mock, mut ids) = server();
    mock.set_chat_delay(Some(5));
    for (failure, status, message) in [
        (
            InjectedFailure::RateLimited { retry_after_secs: Some(30) },
            429,
            "mock rate limit exceeded",
        ),
        (InjectedFailure::PaymentRequired, 402, "mock insufficient credits"),
        (InjectedFailure::Unauthorized, 401, "mock invalid api key"),
    ] {
        mock.set_chat_failure(Some(failure));
        let response = post(&mut mock, &mut ids, "{}");
        assert_eq!(response.status, status);
        assert_eq!(response.delay_nanos, Some(5));
        match &response.body {
            MockBody::Json(json) => {
                assert_eq!(json.get("error").unwrap().get_str("message"), Some(message));
            }
            other => panic!("{other:?}"),
        }
        if status == 429 {
            assert_eq!(response.header, Some(("Retry-After".to_string(), "30".to_string())));
        }
    }
    mock.set_chat_failure(None);
    assert_eq!(post(&mut mock, &mut ids, "not json").status, 400);
    assert_eq!(mock.chat_request_count(), 4);
    assert!(mock.chat_request_bodies().is_empty(), "nothing was read");
    mock.reset_counts();
    assert_eq!(mock.chat_request_count(), 0);
    assert_eq!(mock.base_url(), "http://mock");
}

#[test]
fn titles_are_decorated_counted_and_can_fail_alone() {
    let (mut mock, mut ids) = server();
    let ask = r#"{"messages":[{"role":"system","content":"You write a CONVERSATION TITLE"}]}"#;
    assert_eq!(content(&post(&mut mock, &mut ids, ask)), "\"Notes About Pelicans.\"");
    mock.set_title_failure(Some(InjectedFailure::PaymentRequired));
    assert_eq!(post(&mut mock, &mut ids, ask).status, 402);
    assert_eq!(post(&mut mock, &mut ids, "{}").status, 200);
    assert_eq!(mock.title_request_count(), 2);
    mock.set_title_failure(None);
    let response = mock.respond(Endpoint::Ollama, &ask.as_bytes().to_vec(), &mut ids);
    match &response.body {
        MockBody::Json(json) => assert_eq!(
            json.get("message").unwrap().get_str("content"),
            Some("\"Notes About Pelicans.\"")
        ),
        other => panic!("{other:?}"),
    }
}

fn calls(response: &MockResponse) -> Vec<(String, String)> {
    match &response.body {
        MockBody::Json(json) => json.get("choices").unwrap().as_array().unwrap()[0]
            .get("message")
            .unwrap()
            .get("tool_calls")
            .unwrap()
            .as_array()
            .unwrap()
            .iter()
            .map(|call| {
                (
                    call.get_str("id").unwrap().to_string(),
                    call.get("function").unwrap().get_str("name").unwrap().to_string(),
                )
            })
            .collect(),
        other => panic!("{other:?}"),
    }
}

#[test]
fn the_research_leg_follows_its_script_turn_by_turn() {
    let (mut mock, mut ids) = server();
    let empty = || Json::Object(vec![]);
    let first = r#"{"tools":[{}],"messages":[{"role":"user","content":"x"}]}"#;
    assert_eq!(
        calls(&post(&mut mock, &mut ids, first)),
        vec![("call_mock_done_0".to_string(), "done".to_string())]
    );
    mock.set_research_tool_rounds(vec![
        vec![("a".to_string(), empty()), ("b".to_string(), empty())],
        vec![("c".to_string(), empty())],
    ]);
    assert_eq!(
        calls(&post(&mut mock, &mut ids, first)),
        vec![
            ("call_mock_a_1".to_string(), "a".to_string()),
            ("call_mock_b_2".to_string(), "b".to_string()),
        ]
    );
    let turn = |n: usize| {
        let said = r#"{"role":"assistant","tool_calls":[{}]}"#;
        format!(r#"{{"tools":[{{}}],"messages":[{}]}}"#, vec![said; n].join(","))
    };
    assert_eq!(calls(&post(&mut mock, &mut ids, &turn(1)))[0].1, "c");
    assert_eq!(calls(&post(&mut mock, &mut ids, &turn(2)))[0].1, "done");
    mock.set_research_force_tool_calls(true);
    assert_eq!(calls(&post(&mut mock, &mut ids, &turn(9)))[0].1, "c");
}

#[test]
fn long_texts_cite_up_to_two_sources() {
    let (mut mock, mut ids) = server();
    let two = r#"{"messages":[{"content":"Write a wiki article. [1] [2] [3] CITATIONS_USED:"}]}"#;
    assert_eq!(
        content(&post(&mut mock, &mut ids, two)),
        "# Mock Wiki\n\n## Overview\n\nThis is a deterministic mock article body. [1] [2]\n\nCITATIONS_USED: 1, 2"
    );
    let one = r#"{"messages":[{"content":"wiki article CITATIONS_USED: wikislow"}]}"#;
    let response = post(&mut mock, &mut ids, one);
    assert!(content(&response).ends_with("CITATIONS_USED: 1"));
    assert_eq!(response.delay_nanos, Some(SLOW_NANOS));
    mock.set_chat_delay(Some(1));
    assert_eq!(post(&mut mock, &mut ids, one).delay_nanos, Some(1), "the knob wins");
    let finding = r#"{"messages":[{"content":"CITATIONS_USED:"}]}"#;
    assert!(content(&post(&mut mock, &mut ids, finding)).starts_with("# Mock Finding"));
    let fails = r#"{"messages":[{"content":"wikifail CITATIONS_USED:"}]}"#;
    assert_eq!(post(&mut mock, &mut ids, fails).status, 400);
}

#[test]
fn structured_requests_are_told_apart_by_schema_or_property() {
    let (mut mock, mut ids) = server();
    let named = |name: &str, text: &str| {
        format!(
            r#"{{"response_format":{{"json_schema":{{"name":"{name}"}}}},"messages":[{{"content":"{text}"}}]}}"#
        )
    };
    let cases = [
        (
            named("extraction_result", "some biology"),
            r#"{"tags":[{"name":"Biology","parent_name":"Topics"}]}"#,
        ),
        (
            named("extraction_result", "PASTA"),
            r#"{"tags":[{"name":"Cooking","parent_name":"Topics"}]}"#,
        ),
        (
            r#"{"messages":[{"content":"parent_name"}]}"#.to_string(),
            r#"{"tags":[{"name":"Physics","parent_name":"Topics"}]}"#,
        ),
        (named("merge_result", "x"), r#"{"merges":[]}"#),
        (
            r#"{"messages":[{"content":"winner_name MockWinner MockLoser"}]}"#.to_string(),
            r#"{"merges":[{"loser_name":"MockLoser","reason":"Deterministic mock merge for the compaction test.","winner_name":"MockWinner"}]}"#,
        ),
        (
            r#"{"messages":[{"content":"after_heading NEW SOURCES TO INCORPORATE (cite as [7] onwards)"}]}"#
                .to_string(),
            r#"{"citations_used":[7],"operations":[{"after_heading":"","content":"Additional mock context referencing the new source. [7]","heading":"Overview","op":"AppendToSection"}]}"#,
        ),
        (r#"{"messages":[{"content":"tags_to_remove parent_name"}]}"#.to_string(), "{}"),
        ("{}".to_string(), "{}"),
    ];
    for (body, expected) in cases {
        assert_eq!(content(&post(&mut mock, &mut ids, &body)), expected, "{body}");
    }
}

#[test]
fn numbers_in_brackets_are_read_as_numbers() {
    let body = |text: &str| {
        Json::Object(vec![(
            "messages".to_string(),
            Json::List(vec![Json::Object(vec![(
                "content".to_string(),
                Json::Text(text.to_string()),
            )])]),
        )])
    };
    assert_eq!(count_numbered_sources(&body("[1] [12] [x] [+5] [-3] [99999999999]")), 12);
    assert_eq!(count_numbered_sources(&body("[[4]] and [5")), 4);
    assert_eq!(count_numbered_sources(&Json::Null), 0);
    let start = "NEW SOURCES TO INCORPORATE (cite as [";
    assert_eq!(first_new_source_index(&body(&format!("{start}-2147483648]"))), Some(i32::MIN));
    assert_eq!(first_new_source_index(&body(&format!("{start}-]"))), None);
    assert_eq!(first_new_source_index(&body(&format!("{start}-+1]"))), None);
    assert_eq!(first_new_source_index(&body("nothing")), None);
}

#[test]
fn embedding_requests_are_read_or_refused() {
    let (mut mock, _) = server();
    let asked = mock
        .take_embedding_request(&br#"{"model":"e","input":["a",1,"b"]}"#.to_vec())
        .expect("a request");
    assert_eq!(asked.inputs, vec!["a".to_string(), String::new(), "b".to_string()]);
    assert_eq!(asked.model, Json::Text("e".to_string()));
    assert_eq!(mock.take_embedding_request(&b"{}".to_vec()).unwrap_err().status, 400);
    assert_eq!(mock.take_embedding_request(&b"\xff".to_vec()).unwrap_err().status, 400);
    mock.set_embedding_failure(Some(InjectedFailure::RateLimited { retry_after_secs: None }));
    let refused = mock.take_embedding_request(&b"{}".to_vec()).unwrap_err();
    assert_eq!((refused.status, refused.header), (429, None));
    assert_eq!(mock.embedding_request_count(), 4);
}

#[test]
fn words_are_counted_without_case_or_punctuation() {
    assert_eq!(embedding_words("Rust, RUST! -- ÄÖ'x 42"), vec!["rust", "rust", "äöx", "42"]);
    assert!(embedding_words(" ... ").is_empty());
    assert_eq!(word_counts(&vec![1, 5, 3], 4), vec![0, 2, 0, 1]);
    assert_eq!(word_counts(&vec![], 3), vec![1, 0, 0]);
}
