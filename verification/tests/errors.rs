use atomic_core::providers::error::body_for_log;
use atomic_core::providers::error::classify_provider_failure;
use atomic_core::providers::error::decode_error;
use atomic_core::providers::error::gateway_trace_id;
use atomic_core::providers::error::stream_delivered_nothing;
use atomic_core::providers::error::truncate_utf8;
use atomic_core::providers::error::ProviderError;
use atomic_core::providers::error::ProviderFailureClass;

#[test]
fn classify_round_trips_display_renderings() {
    let with_hint = ProviderError::RateLimited {
        retry_after_secs: Some(30),
    };
    assert_eq!(
        classify_provider_failure(&with_hint.to_string()),
        ProviderFailureClass::RateLimited {
            retry_after_secs: Some(30)
        }
    );

    let without_hint = ProviderError::RateLimited {
        retry_after_secs: None,
    };
    assert_eq!(
        classify_provider_failure(&without_hint.to_string()),
        ProviderFailureClass::RateLimited {
            retry_after_secs: None
        }
    );

    let payment = ProviderError::Api {
        status: 402,
        message: "Insufficient credits".to_string(),
    };
    assert_eq!(
        classify_provider_failure(&payment.to_string()),
        ProviderFailureClass::PaymentRequired
    );

    for status in [401u16, 403] {
        let auth = ProviderError::Api {
            status,
            message: "key revoked".to_string(),
        };
        assert_eq!(
            classify_provider_failure(&auth.to_string()),
            ProviderFailureClass::AuthFailed,
            "{status} must classify as an auth failure"
        );
    }
}

#[test]
fn classify_survives_error_wrapping() {
    assert_eq!(
        classify_provider_failure(
            "Embedding error: Provider error: Rate limited, retry after 120 seconds"
        ),
        ProviderFailureClass::RateLimited {
            retry_after_secs: Some(120)
        }
    );
    assert_eq!(
        classify_provider_failure("Wiki error: API error (402): out of credits"),
        ProviderFailureClass::PaymentRequired
    );
}

#[test]
fn classify_recognizes_transient_failures() {
    for message in [
        "API error (500): upstream exploded",
        "API error (502): bad gateway",
        "API error (503): service unavailable",
        "Embedding error: Provider error: Network error: connection refused",
        "Network error: timed out",
    ] {
        assert_eq!(
            classify_provider_failure(message),
            ProviderFailureClass::Transient,
            "{message:?} must classify as Transient"
        );
    }
}

#[test]
fn classify_leaves_unrelated_errors_alone() {
    for message in [
        "Parse error: bad JSON",
        "Model not found: gpt-nonexistent",
        "",
    ] {
        assert_eq!(
            classify_provider_failure(message),
            ProviderFailureClass::Other,
            "{message:?} must classify as Other"
        );
    }
}

#[test]
fn classify_tolerates_malformed_retry_after() {
    assert_eq!(
        classify_provider_failure("Rate limited, retry after soon-ish"),
        ProviderFailureClass::RateLimited {
            retry_after_secs: None
        }
    );
}

fn eof_err(body: &str) -> serde_json::Error {
    serde_json::from_str::<serde_json::Value>(body).unwrap_err()
}

#[test]
fn padded_body_is_a_retryable_transient_failure() {
    let body = "\n         \n".repeat(116);
    let err = decode_error("chat response", &body, &eof_err(&body), Some("gen-abc"));

    assert!(matches!(err, ProviderError::Network(_)), "got {err:?}");
    assert!(err.is_retryable());
    assert_eq!(
        classify_provider_failure(&err.to_string()),
        ProviderFailureClass::Transient
    );
    let rendered = err.to_string();
    assert!(rendered.contains("232 newlines"), "{rendered}");
    assert!(rendered.contains("gen-abc"), "{rendered}");
}

#[test]
fn truncated_json_is_transient_too() {
    let body = r#"{"id":"gen-1","choices":["#;
    let err = decode_error("chat response", body, &eof_err(body), None);
    assert!(matches!(err, ProviderError::Network(_)), "got {err:?}");
    assert!(err.is_retryable());
}

#[test]
fn real_parse_failures_stay_permanent() {
    let syntax = "{not json";
    let err = decode_error("chat response", syntax, &eof_err(syntax), None);
    assert!(matches!(err, ProviderError::ParseError(_)), "got {err:?}");
    assert!(!err.is_retryable());

    // Valid JSON, wrong shape: serde reports Data, not Eof.
    let data_err = serde_json::from_str::<Vec<u32>>("{\"a\":1}").unwrap_err();
    let err = decode_error("chat response", "{\"a\":1}", &data_err, None);
    assert!(matches!(err, ProviderError::ParseError(_)), "got {err:?}");
}

#[test]
fn padding_is_described_not_dumped() {
    let body = "\n         \n".repeat(116);
    let rendered = body_for_log(&body, 500);
    assert!(!rendered.contains('\n'), "log line must stay one line");
    assert!(rendered.contains("232 newlines"), "{rendered}");

    assert_eq!(body_for_log("", 500), "<empty body>");
    assert_eq!(body_for_log("{\"a\":1}", 500), "\"{\\\"a\\\":1}\"");
}

#[test]
fn an_empty_body_and_one_cut_short_read_apart() {
    let empty = decode_error("chat response", "", &eof_err(""), None);
    assert_eq!(
        empty.to_string(),
        "Network error: truncated chat response: the gateway committed 200 and sent no body at all"
    );
    let err = eof_err("[1,");
    let reason = err.to_string();
    let cut = decode_error("chat response", "[1,", &err, Some("g")).to_string();
    assert_eq!(
        cut,
        format!("Network error: truncated chat response: the body ended mid-JSON after 3 bytes ({reason}) [generation g]")
    );
    let syntax = eof_err("}");
    assert_eq!(
        decode_error("answer", "}", &syntax, None).to_string(),
        format!("Parse error: Failed to parse answer: {syntax}")
    );
}

#[test]
fn every_error_reads_as_its_kind() {
    let cases = [
        (ProviderError::Network("x".to_string()), "Network error: x", true, false),
        (
            ProviderError::Api { status: 503, message: "x".to_string() },
            "API error (503): x",
            true,
            false,
        ),
        (
            ProviderError::Api { status: 404, message: "x".to_string() },
            "API error (404): x",
            true,
            false,
        ),
        (
            ProviderError::Api { status: 401, message: "x".to_string() },
            "API error (401): x",
            false,
            false,
        ),
        (
            ProviderError::Api { status: 400, message: "x".to_string() },
            "API error (400): x",
            false,
            true,
        ),
        (
            ProviderError::RateLimited { retry_after_secs: Some(7) },
            "Rate limited, retry after 7 seconds",
            true,
            false,
        ),
        (ProviderError::RateLimited { retry_after_secs: None }, "Rate limited", true, false),
        (ProviderError::ModelNotFound("m".to_string()), "Model not found: m", false, false),
        (ProviderError::Configuration("c".to_string()), "Configuration error: c", false, false),
        (
            ProviderError::CapabilityNotSupported("t".to_string()),
            "Capability not supported: t",
            false,
            false,
        ),
        (ProviderError::ParseError("p".to_string()), "Parse error: p", false, false),
        (ProviderError::NotInitialized, "Provider not initialized", false, false),
    ];
    for (error, rendering, retryable, reducible) in cases {
        assert_eq!(error.to_string(), rendering);
        assert_eq!(error.is_batch_reducible(), reducible, "{rendering}");
        assert_eq!(error.is_retryable(), retryable, "{rendering}");
    }
    assert_eq!(ProviderError::RateLimited { retry_after_secs: Some(7) }.retry_after(), Some(7));
    assert_eq!(ProviderError::Network("x".to_string()).retry_after(), Some(1));
    assert_eq!(ProviderError::NotInitialized.retry_after(), None);
}

#[test]
fn a_cut_never_splits_a_character() {
    assert_eq!(truncate_utf8("aüb", 2), "a");
    assert_eq!(truncate_utf8("aüb", 3), "aü");
    assert_eq!(truncate_utf8("aüb", 0), "");
    assert_eq!(truncate_utf8("aüb", 99), "aüb");
}

#[test]
fn the_generation_id_comes_before_the_request_id() {
    let mut headers = reqwest::header::HeaderMap::new();
    assert_eq!(gateway_trace_id(&headers), None);
    headers.insert("X-Request-Id", reqwest::header::HeaderValue::from_static("req"));
    assert_eq!(gateway_trace_id(&headers), Some("req".to_string()));
    headers.insert("x-generation-id", reqwest::header::HeaderValue::from_static("gen"));
    assert_eq!(gateway_trace_id(&headers), Some("gen".to_string()));
    // A field that is there but is no text hides the one after it.
    headers.insert("x-generation-id", reqwest::header::HeaderValue::from_bytes(&[0xff]).unwrap());
    assert_eq!(gateway_trace_id(&headers), None);
}

#[test]
fn a_silent_stream_is_a_transport_failure() {
    let err = stream_delivered_nothing("chat stream", Some("gen-1"));
    assert_eq!(
        err.to_string(),
        "Network error: truncated chat stream: the gateway committed 200 and closed the stream without delivering any payload [generation gen-1]"
    );
    assert_eq!(classify_provider_failure(&err.to_string()), ProviderFailureClass::Transient);
}

#[test]
fn a_parser_error_becomes_a_parse_error() {
    let err = serde_json::from_str::<serde_json::Value>("{oops").unwrap_err();
    let reason = err.to_string();
    assert_eq!(ProviderError::from(err).to_string(), format!("Parse error: {reason}"));
}

#[test]
fn context_in_front_of_an_error_keeps_its_class() {
    let errors = [
        ProviderError::RateLimited { retry_after_secs: None },
        ProviderError::RateLimited { retry_after_secs: Some(7) },
        ProviderError::Api { status: 402, message: "pay".to_string() },
        ProviderError::Api { status: 403, message: "no".to_string() },
        ProviderError::Api { status: 503, message: "down".to_string() },
        ProviderError::Network("cut".to_string()),
        ProviderError::ParseError("bad".to_string()),
        ProviderError::NotInitialized,
    ];
    for error in errors {
        let bare = error.to_string();
        for context in ["Wiki error: ", "A", "Rate limite", "API error (40"] {
            assert_eq!(
                classify_provider_failure(&format!("{context}{bare}")),
                classify_provider_failure(&bare),
                "{context}{bare}"
            );
        }
    }
}

#[test]
fn what_is_retryable_and_of_no_other_class_is_transient() {
    for status in [0u16, 5, 40, 200, 399, 404, 405, 408, 413, 418, 422, 500, 599, 4020, 65535] {
        let error = ProviderError::Api { status, message: "x".to_string() };
        assert!(error.is_retryable());
        for context in ["", "Wiki error: ", "after API error (400): y, "] {
            assert_eq!(
                classify_provider_failure(&format!("{context}{error}", error = error.to_string())),
                ProviderFailureClass::Transient,
                "{context}{status}"
            );
        }
    }
    assert_eq!(
        classify_provider_failure("first API error (400): a, next API error (404): b"),
        ProviderFailureClass::Transient
    );
}

#[test]
fn what_is_permanent_and_of_no_other_class_is_left_alone() {
    let errors = [
        ProviderError::Api { status: 400, message: "x".to_string() },
        ProviderError::ModelNotFound("m".to_string()),
        ProviderError::Configuration("c".to_string()),
        ProviderError::CapabilityNotSupported("t".to_string()),
        ProviderError::ParseError("p".to_string()),
        ProviderError::NotInitialized,
    ];
    for error in errors {
        assert!(!error.is_retryable());
        assert_eq!(
            classify_provider_failure(&format!("Wiki error: {}", error.to_string())),
            ProviderFailureClass::Other
        );
    }
    for message in [
        "API error (404",
        "API error (404: x",
        "API error (): x",
        "API error (4x4): x",
        "API error 404",
        "API error (0400): x",
        "API error (400): x",
    ] {
        assert_eq!(classify_provider_failure(message), ProviderFailureClass::Other, "{message}");
    }
    assert_eq!(
        classify_provider_failure("API error (99999999999999999999999): x"),
        ProviderFailureClass::Transient
    );
}

#[test]
fn a_rate_limit_is_told_behind_any_other_failure() {
    for context in ["API error (402): a; ", "API error (401): b; ", "Network error: c; "] {
        assert_eq!(
            classify_provider_failure(&format!("{context}Rate limited, retry after 9 seconds")),
            ProviderFailureClass::RateLimited { retry_after_secs: Some(9) }
        );
    }
    assert_eq!(
        classify_provider_failure("API error (404): a; API error (402): b"),
        ProviderFailureClass::PaymentRequired
    );
}
