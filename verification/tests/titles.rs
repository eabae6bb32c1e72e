use atomic_core::chat_title::first_message;
use atomic_core::chat_title::sanitize;
use atomic_core::chat_title::title_config;
use atomic_core::chat_title::title_prompt;
use atomic_core::chat_title::truncate_chars;
use atomic_core::chat_title::ChatMessage;
use atomic_core::chat_title::MAX_TITLE_CHARS;

#[test]
fn strips_quotes_and_trailing_punctuation() {
    assert_eq!(
        sanitize("\"Pelican migration notes.\""),
        Some("Pelican migration notes".to_string())
    );
    assert_eq!(
        sanitize("**Rust ownership rules!**"),
        Some("Rust ownership rules".to_string())
    );
}

#[test]
fn keeps_only_the_first_line_and_six_words() {
    assert_eq!(
        sanitize("Seven word titles get cut down here\n\nExplanation the model added"),
        Some("Seven word titles get cut down".to_string())
    );
}

#[test]
fn truncates_absurdly_long_words_on_a_char_boundary() {
    let title = sanitize(&"ü".repeat(200)).expect("a title");
    assert_eq!(title.chars().count(), MAX_TITLE_CHARS);
}

#[test]
fn words_are_one_space_apart() {
    assert_eq!(sanitize("  One \t two\u{a0} three  "), Some("One two three".to_string()));
    let long = "a".repeat(59);
    assert_eq!(sanitize(&format!("{long} b")), Some(long));
}

#[test]
fn rejects_answers_with_nothing_left() {
    assert_eq!(sanitize(""), None);
    assert_eq!(sanitize("   \n  "), None);
    assert_eq!(sanitize("\"...\""), None);
}

fn message(role: &str, content: &str) -> ChatMessage {
    ChatMessage { role: role.to_string(), content: content.to_string() }
}

#[test]
fn a_title_is_asked_for_once_both_sides_have_spoken() {
    let exchange = vec![message("user", "Hi"), message("assistant", "Hello")];
    assert!(title_prompt(&None, &exchange).is_some());
    assert!(title_prompt(&Some("Taken".to_string()), &exchange).is_none());
    assert!(title_prompt(&None, &vec![message("user", "Hi")]).is_none());
    assert_eq!(first_message(&exchange, "assistant"), Some("Hello".to_string()));
    assert_eq!(first_message(&exchange, "tool"), None);
}

#[test]
fn texts_are_cut_by_characters() {
    assert_eq!(truncate_chars("ünlü", 3), "ünl");
    assert_eq!(truncate_chars("ünlü", 4), "ünlü");
    assert_eq!(truncate_chars("", 4), "");
}

#[test]
fn a_title_is_asked_for_briefly() {
    let config = title_config("m");
    assert_eq!(config.model, "m");
    assert_eq!(config.params.temperature, Some(0.3f32.to_bits()));
    assert_eq!(config.params.max_tokens, Some(32));
    assert!(config.params.minimize_reasoning && config.params.structured_output.is_none());
}
