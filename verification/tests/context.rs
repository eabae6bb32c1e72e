use atomic_core::agent_runtime::context::budget_for;
use atomic_core::agent_runtime::context::estimate_message_tokens;
use atomic_core::agent_runtime::context::texts_to_count;
use atomic_core::agent_runtime::context::truncate_messages_to_context;
use atomic_core::agent_runtime::context::MessageTokens;
use atomic_core::agent_runtime::run::messages_are_balanced;
use atomic_core::providers::types::Message;
use atomic_core::providers::types::ToolCall;

fn call(id: &str) -> ToolCall {
    ToolCall {
        id: id.to_string(),
        call_type: Some("function".to_string()),
        function: None,
        name: Some("echo".to_string()),
        arguments: Some("{}".to_string()),
    }
}

fn round(id: &str) -> Vec<Message> {
    vec![
        Message::assistant_with_tool_calls(vec![call(id)]),
        Message::tool_result(id, "result"),
    ]
}

fn counts(n: usize, each: usize) -> Vec<MessageTokens> {
    (0..n).map(|_| MessageTokens { content: each, calls: Vec::new() }).collect()
}

#[test]
fn the_budget_is_seven_tenths_of_the_window_as_floats_have_it() {
    for n in [0usize, 1, 2, 3, 10, 100, 4096, 8191, 128_000, 200_000, 1_000_000, usize::MAX] {
        assert_eq!(budget_for(n), (n as f64 * 0.7) as usize, "{n}");
    }
}

#[test]
fn a_call_costs_more_than_its_text() {
    let counts = MessageTokens { content: 5, calls: vec![(1, 2), (3, 4)] };
    assert_eq!(estimate_message_tokens(&counts), 35);
}

#[test]
fn a_history_that_fits_stays_as_it_is() {
    let messages = || {
        let mut all = vec![Message::system("s"), Message::user("u")];
        all.extend(round("c1"));
        all
    };
    assert_eq!(truncate_messages_to_context(messages(), &counts(4, 10), None), messages());
    assert_eq!(truncate_messages_to_context(messages(), &counts(4, 10), Some(100)), messages());
}

#[test]
fn the_oldest_rounds_go_first_and_never_in_halves() {
    let mut messages = vec![Message::system("s"), Message::user("u")];
    for id in ["c1", "c2", "c3"] {
        messages.extend(round(id));
    }
    let n = messages.len();
    let kept = truncate_messages_to_context(messages, &counts(n, 10), Some(80));
    assert!(kept.len() < n);
    assert_eq!(kept[0], Message::system("s"));
    assert_eq!(kept[kept.len() - 1], Message::tool_result("c3", "result"));
    assert!(messages_are_balanced(&kept), "{kept:?}");
}

#[test]
fn as_many_recent_rounds_are_kept_as_fit() {
    let messages = || {
        let mut all = vec![Message::system("s"), Message::user("u")];
        for id in ["c1", "c2", "c3"] {
            all.extend(round(id));
        }
        all
    };
    for (window, budget, from) in [(70, 49, 6), (72, 50, 4), (98, 68, 4), (100, 70, 2), (113, 79, 2)] {
        assert_eq!(budget_for(window), budget);
        let mut expected = vec![Message::system("s")];
        expected.extend(messages().split_off(from));
        assert_eq!(
            truncate_messages_to_context(messages(), &counts(8, 10), Some(window)),
            expected,
            "{window}"
        );
    }
}

#[test]
fn a_call_without_its_result_is_out_of_balance() {
    assert!(messages_are_balanced(&vec![Message::user("u")]));
    assert!(messages_are_balanced(&round("x")));
    assert!(!messages_are_balanced(&vec![Message::assistant_with_tool_calls(vec![call("x")])]));
}

#[test]
fn content_names_and_arguments_are_counted() {
    let mut message = Message::assistant("thinking");
    let bare = ToolCall { name: None, arguments: None, ..call("c2") };
    message.tool_calls = Some(vec![call("c1"), bare]);
    let texts = texts_to_count(&message);
    assert_eq!(texts.content, "thinking");
    let pair = |name: &str, arguments: &str| (name.to_string(), arguments.to_string());
    assert_eq!(texts.calls, vec![pair("echo", "{}"), pair("", "")]);
    let silent = texts_to_count(&Message::assistant_with_tool_calls(vec![]));
    assert_eq!((silent.content.as_str(), silent.calls.len()), ("", 0));
}
