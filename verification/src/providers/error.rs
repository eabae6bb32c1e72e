//! What can go wrong in a provider call, how it reads, and what a failure
//! message says about retrying.

use crate::outside;
use crate::text;
use vstd::prelude::*;

verus! {

/// Errors that can occur during provider operations.
#[derive(Debug)]
pub enum ProviderError {
    /// Network or connection error.
    Network(String),
    /// API error with its status code.
    Api { status: u16, message: String },
    /// Rate limited, with the provider's hint where it sent one.
    RateLimited { retry_after_secs: Option<u64> },
    /// Model not found or unavailable.
    ModelNotFound(String),
    /// Missing API key, invalid settings and the like.
    Configuration(String),
    /// Capability not supported by this provider.
    CapabilityNotSupported(String),
    /// The response could not be read.
    ParseError(String),
    /// Provider not initialized.
    NotInitialized,
}

/// Coarse class of a provider failure, recovered from an error message.
#[derive(Debug, Clone, Copy, PartialEq, Eq, Structural)]
pub enum ProviderFailureClass {
    /// HTTP 429, with the hint where the provider sent one.
    RateLimited { retry_after_secs: Option<u64> },
    /// HTTP 402: refused for billing reasons.
    PaymentRequired,
    /// HTTP 401 and 403: the stored credentials were rejected.
    AuthFailed,
    /// HTTP 5xx, a connection or a timeout error, and whatever else
    /// [`ProviderError::is_retryable`] covers that is not of a class above: a
    /// later attempt may succeed.
    Transient,
    /// Anything else.
    Other,
}

impl ProviderError {
    /// How the error reads.
    pub open spec fn rendering(&self) -> Seq<char> {
        match self {
            ProviderError::Network(message) => "Network error: "@ + message@,
            ProviderError::Api { status, message } => "API error ("@ + text::decimal(*status as nat)
                + "): "@ + message@,
            ProviderError::RateLimited { retry_after_secs } => match retry_after_secs {
                Some(secs) => "Rate limited, retry after "@ + text::decimal(*secs as nat) + " seconds"@,
                None => "Rate limited"@,
            },
            ProviderError::ModelNotFound(model) => "Model not found: "@ + model@,
            ProviderError::Configuration(message) => "Configuration error: "@ + message@,
            ProviderError::CapabilityNotSupported(capability) => "Capability not supported: "@
                + capability@,
            ProviderError::ParseError(message) => "Parse error: "@ + message@,
            ProviderError::NotInitialized => "Provider not initialized"@,
        }
    }

    pub fn to_string(&self) -> (text: String)
        ensures
            text@ == self.rendering(),
            self matches ProviderError::Network(message) ==> text@ == "Network error: "@ + message@,
            self matches ProviderError::Api { status, message } ==> text@ == "API error ("@
                + text::decimal(*status as nat) + "): "@ + message@,
            self matches ProviderError::RateLimited { retry_after_secs: Some(secs) } ==> text@
                == "Rate limited, retry after "@ + text::decimal(*secs as nat) + " seconds"@,
            self matches ProviderError::RateLimited { retry_after_secs: None } ==> text@
                == "Rate limited"@,
            self matches ProviderError::ModelNotFound(model) ==> text@ == "Model not found: "@
                + model@,
            self matches ProviderError::Configuration(message) ==> text@
                == "Configuration error: "@ + message@,
            self matches ProviderError::CapabilityNotSupported(capability) ==> text@
                == "Capability not supported: "@ + capability@,
            self matches ProviderError::ParseError(message) ==> text@ == "Parse error: "@
                + message@,
            self is NotInitialized ==> text@ == "Provider not initialized"@,
    {
        match self {
            ProviderError::Network(message) => String::from_str("Network error: ").concat(
                message.as_str(),
            ),
            ProviderError::Api { status, message } => {
                let mut text = String::from_str("API error (");
                text::push_decimal(&mut text, *status as u64);
                text.append("): ");
                text.append(message.as_str());
                text
            },
            ProviderError::RateLimited { retry_after_secs } => match retry_after_secs {
                Some(secs) => {
                    let mut text = String::from_str("Rate limited, retry after ");
                    text::push_decimal(&mut text, *secs);
                    text.append(" seconds");
                    text
                },
                None => String::from_str("Rate limited"),
            },
            ProviderError::ModelNotFound(model) => String::from_str("Model not found: ").concat(
                model.as_str(),
            ),
            ProviderError::Configuration(message) => String::from_str(
                "Configuration error: ",
            ).concat(message.as_str()),
            ProviderError::CapabilityNotSupported(capability) => String::from_str(
                "Capability not supported: ",
            ).concat(capability.as_str()),
            ProviderError::ParseError(message) => String::from_str("Parse error: ").concat(
                message.as_str(),
            ),
            ProviderError::NotInitialized => String::from_str("Provider not initialized"),
        }
    }

    /// Whether the same request, or a smaller batch, may succeed. Of the API
    /// statuses only 400 and 401 are permanent.
    pub open spec fn retryable(&self) -> bool {
        match self {
            ProviderError::RateLimited { .. } => true,
            ProviderError::Network(_) => true,
            ProviderError::Api { status, .. } => *status != 400 && *status != 401,
            _ => false,
        }
    }

    pub fn is_retryable(&self) -> (yes: bool)
        ensures
            yes == self.retryable(),
    {
        match self {
            ProviderError::RateLimited { .. } => true,
            ProviderError::Network(_) => true,
            ProviderError::Api { status, .. } => *status != 400 && *status != 401,
            _ => false,
        }
    }

    /// Whether a smaller batch might resolve this error: a 400 may mean that
    /// the provider's batch limit was exceeded.
    pub fn is_batch_reducible(&self) -> (yes: bool)
        ensures
            yes == (self matches ProviderError::Api { status, .. } && *status == 400),
    {
        match self {
            ProviderError::Api { status, .. } => *status == 400,
            _ => false,
        }
    }

    /// The suggested delay before a retry, in seconds: the provider's hint
    /// after a rate limit, one second after a network error.
    pub fn retry_after(&self) -> (secs: Option<u64>)
        ensures
            secs == (match self {
                ProviderError::RateLimited { retry_after_secs } => *retry_after_secs,
                ProviderError::Network(_) => Some(1u64),
                _ => None,
            }),
    {
        match self {
            ProviderError::RateLimited { retry_after_secs } => *retry_after_secs,
            ProviderError::Network(_) => Some(1),
            _ => None,
        }
    }
}

/// Whether `error` says that a response could not be read, in the parser's own
/// words.
pub open spec fn is_parse_error(error: ProviderError, err: serde_json::Error) -> bool {
    error matches ProviderError::ParseError(message) && message@ == outside::json_error_rendering(
        err,
    )
}

impl From<serde_json::Error> for ProviderError {
    fn from(err: serde_json::Error) -> (error: ProviderError)
        ensures
            is_parse_error(error, err),
            error matches ProviderError::ParseError(message) && message@
                == outside::json_error_rendering(err),
    {
        ProviderError::ParseError(outside::json_error_text(&err))
    }
}

/// An error holds a `String`, of which only the characters are known. So what
/// `from` returns is stated by its own clause and not as one value.
impl vstd::std_specs::convert::FromSpecImpl<serde_json::Error> for ProviderError {
    open spec fn obeys_from_spec() -> bool {
        false
    }

    open spec fn from_spec(err: serde_json::Error) -> ProviderError {
        choose|error: ProviderError| is_parse_error(error, err)
    }
}

/// The delay that the text after "Rate limited" asks for.
pub open spec fn retry_hint(tail: Seq<char>) -> Option<u64> {
    if text::has_prefix(tail, ", retry after "@) {
        text::u64_value(text::leading(tail.skip(", retry after "@.len() as int), text::digits()))
    } else {
        None
    }
}

/// The status of the API error that is rendered at `at`, if one is: digits in
/// brackets.
pub open spec fn status_at(message: Seq<char>, at: int) -> Option<nat> {
    let rest = message.skip(at + "API error ("@.len());
    let shown = text::leading(rest, text::digits());
    if text::occurs_at(message, "API error ("@, at) && 0 < shown.len() < rest.len()
        && rest[shown.len() as int] == ')' {
        Some(text::number(shown))
    } else {
        None
    }
}

/// Whether a status is none of those that are permanent or of a class of their
/// own.
pub open spec fn passing_status(status: Option<nat>) -> bool {
    status matches Some(status) && !(400 <= status <= 403)
}

/// Whether an API error with a passing status is rendered in `message`.
pub open spec fn tells_passing_status(message: Seq<char>) -> bool {
    exists|at: int| 0 <= at && passing_status(#[trigger] status_at(message, at))
}

/// Whether `message` tells of a failure that may pass.
pub open spec fn tells_transient(message: Seq<char>) -> bool {
    ||| text::has_text(message, "API error (5"@)
    ||| text::has_text(message, "Network error:"@)
    ||| tells_passing_status(message)
}

/// The class of a failure, read off its message by the renderings of
/// [`ProviderError`] that stand in it.
pub open spec fn failure_class(message: Seq<char>) -> ProviderFailureClass {
    match text::first_at(message, "Rate limited"@) {
        Some(at) => ProviderFailureClass::RateLimited {
            retry_after_secs: retry_hint(message.skip(at + "Rate limited"@.len())),
        },
        None => if text::has_text(message, "API error (402)"@) {
            ProviderFailureClass::PaymentRequired
        } else if text::has_text(message, "API error (401)"@) || text::has_text(message, "API error (403)"@) {
            ProviderFailureClass::AuthFailed
        } else if tells_transient(message) {
            ProviderFailureClass::Transient
        } else {
            ProviderFailureClass::Other
        },
    }
}

fn names_passing_status(chars: &Vec<char>) -> (yes: bool)
    ensures
        yes == tells_passing_status(chars@),
{
    let lead = text::chars_of("API error (");
    let mut from: usize = 0;
    while from < chars.len()
        invariant
            lead@ == "API error ("@,
            from <= chars.len(),
            forall|at: int| 0 <= at < from ==> !passing_status(#[trigger] status_at(chars@, at)),
        decreases chars.len() - from,
    {
        proof {
            text::lemma_first_from(chars@, lead@, from as int);
        }
        match text::find_chars(chars, &lead, from) {
            None => {
                assert forall|at: int| 0 <= at implies !passing_status(
                    #[trigger] status_at(chars@, at),
                ) by {
                    if at >= from {
                        assert(!text::occurs_at(chars@, lead@, at));
                    }
                }
                return false;
            },
            Some(at) => {
                assert(text::occurs_at(chars@, lead@, at as int));
                let start: usize = at + lead.len();
                let end: usize = chars.len();
                let stop = text::skip_class(chars, start, end, &text::CharClass::Digit);
                let shown = text::string_of(chars, start, stop);
                proof {
                    reveal_strlit("API error (");
                    let rest = chars@.skip(start as int);
                    assert forall|i: int| 0 <= i < stop - start implies text::digits().contains(
                        #[trigger] rest[i],
                    ) by {
                        assert(rest[i] == chars@[start + i]);
                    }
                    text::lemma_drop_front(rest, text::digits(), stop - start);
                    assert(shown@ =~= text::leading(rest, text::digits()));
                    assert forall|i: int| 0 <= i < shown@.len() implies text::is_digit(
                        #[trigger] shown@[i],
                    ) by {
                        assert(shown@[i] == rest[i]);
                    }
                }
                if stop > start && stop < end && chars[stop] == ')' {
                    let passing = match text::parse_u64(shown.as_str()) {
                        Some(status) => status < 400 || status > 403,
                        None => true,
                    };
                    assert(text::is_digit(shown@[0]));
                    assert(status_at(chars@, at as int) == Some(text::number(shown@)));
                    if passing {
                        assert(passing_status(status_at(chars@, at as int)));
                        return true;
                    }
                }
                assert(!passing_status(status_at(chars@, at as int)));
                assert forall|i: int| 0 <= i < at + 1 implies !passing_status(
                    #[trigger] status_at(chars@, i),
                ) by {
                    if from <= i < at {
                        assert(!text::occurs_at(chars@, lead@, i));
                    }
                }
                from = at + 1;
            },
        }
    }
    proof {
        reveal_strlit("API error (");
    }
    false
}

/// Classifies a failure that was flattened into a message, often wrapped in
/// further context, by recognizing the renderings of [`ProviderError`] in it.
pub fn classify_provider_failure(message: &str) -> (class: ProviderFailureClass)
    ensures
        class == failure_class(message@),
{
    let chars = text::chars_of(message);
    let marker = text::chars_of("Rate limited");
    match text::find_chars(&chars, &marker, 0) {
        Some(at) => {
            proof {
                text::lemma_first_at(message@, "Rate limited"@);
                assert(text::first_at(message@, "Rate limited"@) == Some(at as int));
            }
            let end: usize = chars.len();
            let start: usize = at + marker.len();
            let tail = text::string_of(&chars, start, end);
            assert(tail@ =~= message@.skip(at + "Rate limited"@.len()));
            let hint = match text::strip_prefix(tail.as_str(), ", retry after ") {
                Some(rest) => {
                    let rest_chars = text::chars_of(rest.as_str());
                    let end = text::skip_class(&rest_chars, 0, rest_chars.len(), &text::CharClass::Digit);
                    let shown = text::string_of(&rest_chars, 0, end);
                    proof {
                        text::lemma_drop_front(rest@, text::digits(), end as int);
                        assert(shown@ =~= text::leading(rest@, text::digits()));
                    }
                    text::parse_u64(shown.as_str())
                },
                None => None,
            };
            ProviderFailureClass::RateLimited { retry_after_secs: hint }
        },
        None => if text::contains(message, "API error (402)") {
            ProviderFailureClass::PaymentRequired
        } else if text::contains(message, "API error (401)") || text::contains(message, "API error (403)") {
            ProviderFailureClass::AuthFailed
        } else if text::contains(message, "API error (5") || text::contains(message, "Network error:")
            || names_passing_status(&chars) {
            ProviderFailureClass::Transient
        } else {
            ProviderFailureClass::Other
        },
    }
}

/// Truncates a string to at most `max_bytes` bytes without splitting a
/// character.
pub fn truncate_utf8(s: &str, max_bytes: usize) -> (part: &str)
    ensures
        text::longest_fit(s@, part@, max_bytes as nat),
        part@.len() <= s@.len() && part@ == s@.take(part@.len() as int),
        text::byte_length(part@) <= max_bytes,
        part@.len() < s@.len() ==> text::byte_length(s@.take(part@.len() as int + 1)) > max_bytes,
{
    let n = text::fitting_chars(s, max_bytes);
    assert(s@.take(n as int) =~= s@.subrange(0, n as int));
    s.substring_char(0, n)
}

proof fn lemma_only_in_rest(prefix: Seq<char>, rest: Seq<char>, needle: Seq<char>)
    requires
        needle.len() > 0,
        forall|i: int|
            0 <= i < prefix.len() ==> prefix[i] != needle[0] || !#[trigger] text::occurs_at(
                prefix + rest,
                needle,
                i,
            ),
    ensures
        text::has_text(prefix + rest, needle) == text::has_text(rest, needle),
{
    let whole = prefix + rest;
    if text::has_text(whole, needle) {
        let at = choose|at: int| #[trigger] text::occurs_at(whole, needle, at);
        if at < prefix.len() {
            assert(whole.subrange(at, at + needle.len())[0] == whole[at]);
            assert(whole[at] == prefix[at]);
        }
        assert(rest.subrange(at - prefix.len(), at - prefix.len() + needle.len())
            =~= whole.subrange(at, at + needle.len()));
        assert(text::occurs_at(rest, needle, at - prefix.len()));
    }
    if text::has_text(rest, needle) {
        let at = choose|at: int| #[trigger] text::occurs_at(rest, needle, at);
        assert(whole.subrange(at + prefix.len(), at + prefix.len() + needle.len())
            =~= rest.subrange(at, at + needle.len()));
        assert(text::occurs_at(whole, needle, at + prefix.len()));
    }
}

proof fn lemma_no_start(prefix: Seq<char>, rest: Seq<char>, needle: Seq<char>)
    requires
        needle.len() > 0,
        forall|i: int| 0 <= i < prefix.len() ==> prefix[i] != needle[0],
    ensures
        text::has_text(prefix + rest, needle) == text::has_text(rest, needle),
{
    lemma_only_in_rest(prefix, rest, needle);
}

/// Whether a text holds none of the markers that tell a more specific class
/// than [`ProviderFailureClass::Transient`].
pub open spec fn unmarked(message: Seq<char>) -> bool {
    &&& !text::has_text(message, "Rate limited"@)
    &&& !text::has_text(message, "API error (402)"@)
    &&& !text::has_text(message, "API error (401)"@)
    &&& !text::has_text(message, "API error (403)"@)
}

proof fn lemma_bare_rate_limit(retry_after_secs: Option<u64>)
    ensures
        failure_class(ProviderError::RateLimited { retry_after_secs }.rendering())
            == (ProviderFailureClass::RateLimited { retry_after_secs }),
{
    reveal_strlit("Rate limited");
    reveal_strlit("Rate limited, retry after ");
    reveal_strlit(", retry after ");
    reveal_strlit(" seconds");
    let message = ProviderError::RateLimited { retry_after_secs }.rendering();
    let marker = "Rate limited"@;
    assert(message.subrange(0, marker.len() as int) =~= marker);
    assert(text::occurs_at(message, marker, 0));
    assert(text::first_at(message, marker) == Some(0int));
    let tail = message.skip(marker.len() as int);
    match retry_after_secs {
        None => {
            assert(tail.len() == 0);
        },
        Some(secs) => {
            let lead = ", retry after "@;
            let shown = text::decimal(secs as nat);
            assert(tail.subrange(0, lead.len() as int) =~= lead);
            let rest = tail.skip(lead.len() as int);
            assert(rest =~= shown + " seconds"@);
            text::lemma_decimal_reads_back(secs as nat);
            assert forall|i: int| 0 <= i < shown.len() implies text::digits().contains(rest[i]) by {
                assert(text::is_digit(shown[i]));
            }
            text::lemma_drop_front(rest, text::digits(), shown.len() as int);
            assert(text::leading(rest, text::digits()) =~= shown);
            assert(text::is_digit(shown[0]));
        },
    }
}

/// What the rendering of a connection failure tells.
proof fn lemma_network_markers(message: Seq<char>)
    requires
        unmarked(message),
    ensures
        unmarked("Network error: "@ + message),
        tells_transient("Network error: "@ + message),
{
    reveal_strlit("Network error: ");
    reveal_strlit("Network error:");
    reveal_strlit("Rate limited");
    reveal_strlit("API error (402)");
    reveal_strlit("API error (401)");
    reveal_strlit("API error (403)");
    let prefix = "Network error: "@;
    let whole = prefix + message;
    lemma_no_start(prefix, message, "Rate limited"@);
    lemma_no_start(prefix, message, "API error (402)"@);
    lemma_no_start(prefix, message, "API error (401)"@);
    lemma_no_start(prefix, message, "API error (403)"@);
    assert(whole.subrange(0, "Network error:"@.len() as int) =~= "Network error:"@);
    assert(text::occurs_at(whole, "Network error:"@, 0));
}

proof fn lemma_three_digits(n: nat)
    requires
        100 <= n < 1000,
    ensures
        text::decimal(n) == seq![text::digit(n / 100), text::digit(n / 10 % 10), text::digit(n % 10)],
{
    reveal_with_fuel(text::decimal, 3);
    assert(text::decimal(n) =~= seq![
        text::digit(n / 100),
        text::digit(n / 10 % 10),
        text::digit(n % 10),
    ]);
}

/// What stands behind a text keeps its status.
proof fn lemma_status_shift(first: Seq<char>, second: Seq<char>, at: int)
    requires
        0 <= at,
    ensures
        status_at(first + second, first.len() + at) == status_at(second, at),
{
    let whole = first + second;
    let lead = "API error ("@;
    let n = first.len() as int;
    if at + lead.len() <= second.len() {
        assert(whole.subrange(n + at, n + at + lead.len()) =~= second.subrange(
            at,
            at + lead.len(),
        ));
        assert(whole.skip(n + at + lead.len()) =~= second.skip(at + lead.len()));
    }
}

/// The status of a rendered API error reads back.
proof fn lemma_status_reads_back(status: u16, message: Seq<char>)
    ensures
        status_at("API error ("@ + text::decimal(status as nat) + "): "@ + message, 0) == Some(
            status as nat,
        ),
{
    reveal_strlit("API error (");
    reveal_strlit("): ");
    let lead = "API error ("@;
    let shown = text::decimal(status as nat);
    let whole = lead + shown + "): "@ + message;
    let rest = whole.skip(lead.len() as int);
    text::lemma_decimal_reads_back(status as nat);
    assert(whole.subrange(0, lead.len() as int) =~= lead);
    assert(rest =~= shown + "): "@ + message);
    assert forall|i: int| 0 <= i < shown.len() implies text::digits().contains(
        #[trigger] rest[i],
    ) by {
        assert(text::is_digit(shown[i]));
    }
    assert(rest[shown.len() as int] == ')');
    text::lemma_drop_front(rest, text::digits(), shown.len() as int);
    assert(text::leading(rest, text::digits()) =~= shown);
}

/// A marker with a status of three digits in brackets stands at the start of a
/// rendered API error exactly where the status is its own.
proof fn lemma_marker_at_start(status: u16, message: Seq<char>, needle: Seq<char>, own: u16)
    requires
        100 <= own < 1000,
        needle == "API error ("@ + text::decimal(own as nat) + ")"@,
    ensures
        text::occurs_at(
            "API error ("@ + text::decimal(status as nat) + "): "@ + message,
            needle,
            0,
        ) == (status == own),
{
    reveal_strlit("API error (");
    reveal_strlit("): ");
    reveal_strlit(")");
    let lead = "API error ("@;
    let whole = lead + text::decimal(status as nat) + "): "@ + message;
    let digits = text::decimal(own as nat);
    lemma_status_reads_back(status, message);
    text::lemma_decimal_reads_back(own as nat);
    if status == own {
        assert(whole.subrange(0, needle.len() as int) =~= needle);
    }
    if text::occurs_at(whole, needle, 0) {
        let found = whole.subrange(0, needle.len() as int);
        let rest = whole.skip(lead.len() as int);
        assert forall|i: int| 0 <= i < digits.len() implies rest[i] == digits[i] by {
            assert(found[lead.len() + i] == needle[lead.len() + i]);
        }
        assert forall|i: int| 0 <= i < digits.len() implies text::digits().contains(
            #[trigger] rest[i],
        ) by {
            assert(text::is_digit(digits[i]));
        }
        assert(found[lead.len() as int + digits.len()] == ')');
        assert(rest[digits.len() as int] == ')');
        text::lemma_drop_front(rest, text::digits(), digits.len() as int);
        assert(text::leading(rest, text::digits()) =~= digits);
    }
}

/// Where the markers stand in the rendering of an API error: at its start where
/// the status is theirs, or in the message.
proof fn lemma_api_markers(status: u16, message: Seq<char>)
    ensures
        ({
            let whole = "API error ("@ + text::decimal(status as nat) + "): "@ + message;
            &&& text::has_text(whole, "Rate limited"@) == text::has_text(message, "Rate limited"@)
            &&& text::has_text(whole, "API error (402)"@) == (status == 402 || text::has_text(
                message,
                "API error (402)"@,
            ))
            &&& text::has_text(whole, "API error (401)"@) == (status == 401 || text::has_text(
                message,
                "API error (401)"@,
            ))
            &&& text::has_text(whole, "API error (403)"@) == (status == 403 || text::has_text(
                message,
                "API error (403)"@,
            ))
        }),
{
    reveal_strlit("API error (");
    reveal_strlit("): ");
    reveal_strlit(")");
    reveal_strlit("Rate limited");
    reveal_strlit("API error (402)");
    reveal_strlit("API error (401)");
    reveal_strlit("API error (403)");
    let prefix = "API error ("@ + text::decimal(status as nat) + "): "@;
    text::lemma_decimal_reads_back(status as nat);
    assert forall|i: int| 0 < i < prefix.len() implies prefix[i] != 'A' && prefix[i] != 'R' by {
        let shown = text::decimal(status as nat);
        if 11 <= i < 11 + shown.len() {
            assert(prefix[i] == shown[i - 11]);
            assert(text::is_digit(shown[i - 11]));
        }
    }
    lemma_three_digits(402);
    lemma_three_digits(401);
    lemma_three_digits(403);
    assert("API error (402)"@ =~= "API error ("@ + text::decimal(402) + ")"@);
    assert("API error (401)"@ =~= "API error ("@ + text::decimal(401) + ")"@);
    assert("API error (403)"@ =~= "API error ("@ + text::decimal(403) + ")"@);
    lemma_marker_at_start(status, message, "API error (402)"@, 402);
    lemma_marker_at_start(status, message, "API error (401)"@, 401);
    lemma_marker_at_start(status, message, "API error (403)"@, 403);
    lemma_no_start(prefix, message, "Rate limited"@);
    lemma_api_marker(prefix, message, "API error (402)"@);
    lemma_api_marker(prefix, message, "API error (401)"@);
    lemma_api_marker(prefix, message, "API error (403)"@);
}

proof fn lemma_api_marker(prefix: Seq<char>, message: Seq<char>, needle: Seq<char>)
    requires
        needle.len() > 0,
        forall|i: int| 0 < i < prefix.len() ==> prefix[i] != needle[0],
    ensures
        text::has_text(prefix + message, needle) == (text::occurs_at(prefix + message, needle, 0)
            || text::has_text(message, needle)),
{
    if !text::occurs_at(prefix + message, needle, 0) {
        lemma_only_in_rest(prefix, message, needle);
    } else if text::has_text(message, needle) {
        assert(text::has_text(prefix + message, needle));
    }
}

/// Whether a text holds none of the markers that a class is told by.
pub open spec fn holds_no_marker(text: Seq<char>) -> bool {
    unmarked(text) && !tells_transient(text)
}

/// Whether what starts with `rest` cannot be the end of a `needle` that starts
/// before it.
spec fn starts_afresh(rest: Seq<char>, needle: Seq<char>) -> bool {
    &&& rest.len() >= 2
    &&& forall|i: int|
        0 < i < needle.len() ==> #[trigger] needle[i] != rest[0] || (i + 1 < needle.len()
            && needle[i + 1] != rest[1])
}

/// A needle does not stand across the end of a context.
proof fn lemma_behind_context(context: Seq<char>, rest: Seq<char>, needle: Seq<char>)
    requires
        needle.len() > 0,
        starts_afresh(rest, needle),
    ensures
        forall|at: int|
            0 <= at < context.len() ==> (#[trigger] text::occurs_at(context + rest, needle, at))
                == text::occurs_at(context, needle, at),
        text::has_text(context + rest, needle) == (text::has_text(context, needle)
            || text::has_text(rest, needle)),
{
    let whole = context + rest;
    let n = context.len() as int;
    assert forall|at: int| 0 <= at < n implies (#[trigger] text::occurs_at(whole, needle, at))
        == text::occurs_at(context, needle, at) by {
        if at + needle.len() <= n {
            assert(context.subrange(at, at + needle.len()) =~= whole.subrange(
                at,
                at + needle.len(),
            ));
        } else if text::occurs_at(whole, needle, at) {
            let found = whole.subrange(at, at + needle.len());
            assert(found[n - at] == whole[n]);
            assert(needle[n - at] == rest[0]);
            if n - at + 1 < needle.len() {
                assert(found[n - at + 1] == whole[n + 1]);
                assert(needle[n - at + 1] == rest[1]);
            }
        }
    }
    if text::has_text(whole, needle) {
        let at = choose|at: int| #[trigger] text::occurs_at(whole, needle, at);
        if at < n {
            assert(text::occurs_at(context, needle, at));
        } else {
            assert(rest.subrange(at - n, at - n + needle.len()) =~= whole.subrange(
                at,
                at + needle.len(),
            ));
            assert(text::occurs_at(rest, needle, at - n));
        }
    }
    if text::has_text(context, needle) {
        let at = choose|at: int| #[trigger] text::occurs_at(context, needle, at);
        assert(text::occurs_at(whole, needle, at));
    }
    if text::has_text(rest, needle) {
        let at = choose|at: int| #[trigger] text::occurs_at(rest, needle, at);
        assert(whole.subrange(n + at, n + at + needle.len()) =~= rest.subrange(
            at,
            at + needle.len(),
        ));
        assert(text::occurs_at(whole, needle, n + at));
    }
}

/// Nor does a status.
proof fn lemma_status_behind_context(context: Seq<char>, rest: Seq<char>)
    requires
        starts_afresh(rest, "API error ("@),
        !text::is_digit(rest[0]),
        rest[0] != ')',
    ensures
        tells_passing_status(context + rest) == (tells_passing_status(context)
            || tells_passing_status(rest)),
{
    reveal_strlit("API error (");
    let lead = "API error ("@;
    let whole = context + rest;
    let n = context.len() as int;
    lemma_behind_context(context, rest, lead);
    assert forall|at: int| 0 <= at < n implies #[trigger] status_at(whole, at) == status_at(
        context,
        at,
    ) by {
        if text::occurs_at(context, lead, at) {
            let early = context.skip(at + lead.len());
            let late = whole.skip(at + lead.len());
            let k = text::lemma_front_run(early, text::digits());
            text::lemma_drop_front(early, text::digits(), k);
            assert(late =~= early + rest);
            assert forall|i: int| 0 <= i < k implies text::digits().contains(
                #[trigger] late[i],
            ) by {
                assert(late[i] == early[i]);
            }
            if k < early.len() {
                assert(late[k] == early[k]);
            } else {
                assert(late[k] == rest[0]);
            }
            text::lemma_drop_front(late, text::digits(), k);
            assert(text::leading(late, text::digits()) =~= text::leading(early, text::digits()));
        }
    }
    if tells_passing_status(whole) {
        let at = choose|at: int| 0 <= at && passing_status(#[trigger] status_at(whole, at));
        if at < n {
            assert(passing_status(status_at(context, at)));
        } else {
            lemma_status_shift(context, rest, at - n);
            assert(passing_status(status_at(rest, at - n)));
        }
    }
    if tells_passing_status(context) {
        let at = choose|at: int| 0 <= at && passing_status(#[trigger] status_at(context, at));
        assert(text::occurs_at(context, lead, at));
        assert(at < n);
        assert(passing_status(status_at(whole, at)));
    }
    if tells_passing_status(rest) {
        let at = choose|at: int| 0 <= at && passing_status(#[trigger] status_at(rest, at));
        lemma_status_shift(context, rest, at);
        assert(passing_status(status_at(whole, n + at)));
    }
}

/// The first two characters of an error's rendering.
proof fn lemma_rendering_starts(error: ProviderError)
    ensures
        error.rendering().len() >= 2,
        ({
            let (first, second) = (error.rendering()[0], error.rendering()[1]);
            ||| first == 'N'
            ||| first == 'A'
            ||| first == 'R'
            ||| first == 'M'
            ||| first == 'C'
            ||| first == 'P' && (second == 'a' || second == 'r')
        }),
{
    reveal_strlit("Network error: ");
    reveal_strlit("API error (");
    reveal_strlit("Rate limited, retry after ");
    reveal_strlit("Rate limited");
    reveal_strlit("Model not found: ");
    reveal_strlit("Configuration error: ");
    reveal_strlit("Capability not supported: ");
    reveal_strlit("Parse error: ");
    reveal_strlit("Provider not initialized");
}

/// What a context in front of an error adds to what is told: what it tells
/// itself.
proof fn lemma_told_behind_context(context: Seq<char>, error: ProviderError)
    ensures
        ({
            let rest = error.rendering();
            let whole = context + rest;
            &&& text::has_text(whole, "Rate limited"@) == (text::has_text(context, "Rate limited"@)
                || text::has_text(rest, "Rate limited"@))
            &&& text::has_text(whole, "API error (402)"@) == (text::has_text(
                context,
                "API error (402)"@,
            ) || text::has_text(rest, "API error (402)"@))
            &&& text::has_text(whole, "API error (401)"@) == (text::has_text(
                context,
                "API error (401)"@,
            ) || text::has_text(rest, "API error (401)"@))
            &&& text::has_text(whole, "API error (403)"@) == (text::has_text(
                context,
                "API error (403)"@,
            ) || text::has_text(rest, "API error (403)"@))
            &&& tells_transient(whole) == (tells_transient(context) || tells_transient(rest))
        }),
{
    reveal_strlit("Rate limited");
    reveal_strlit("API error (402)");
    reveal_strlit("API error (401)");
    reveal_strlit("API error (403)");
    reveal_strlit("API error (5");
    reveal_strlit("Network error:");
    reveal_strlit("API error (");
    let rest = error.rendering();
    lemma_rendering_starts(error);
    lemma_behind_context(context, rest, "Rate limited"@);
    lemma_behind_context(context, rest, "API error (402)"@);
    lemma_behind_context(context, rest, "API error (401)"@);
    lemma_behind_context(context, rest, "API error (403)"@);
    lemma_behind_context(context, rest, "API error (5"@);
    lemma_behind_context(context, rest, "Network error:"@);
    lemma_status_behind_context(context, rest);
}

/// Where a rate limit is told first, behind a context that tells of none.
proof fn lemma_rate_limit_behind_context(context: Seq<char>, error: ProviderError)
    requires
        !text::has_text(context, "Rate limited"@),
    ensures
        match text::first_at(error.rendering(), "Rate limited"@) {
            Some(at) => text::first_at(context + error.rendering(), "Rate limited"@) == Some(
                context.len() + at,
            ),
            None => text::first_at(context + error.rendering(), "Rate limited"@) is None,
        },
{
    reveal_strlit("Rate limited");
    let rest = error.rendering();
    let whole = context + rest;
    let marker = "Rate limited"@;
    let n = context.len() as int;
    lemma_rendering_starts(error);
    lemma_behind_context(context, rest, marker);
    text::lemma_first_from(whole, marker, 0);
    text::lemma_first_from(rest, marker, 0);
    text::lemma_first_at(whole, marker);
    text::lemma_first_at(rest, marker);
    if let Some(at) = text::first_at(rest, marker) {
        assert(whole.subrange(n + at, n + at + marker.len()) =~= rest.subrange(
            at,
            at + marker.len(),
        ));
        assert(text::occurs_at(whole, marker, n + at));
        let found = text::first_at(whole, marker)->0;
        if found < n {
            assert(text::occurs_at(context, marker, found));
        } else if found < n + at {
            assert(rest.subrange(found - n, found - n + marker.len()) =~= whole.subrange(
                found,
                found + marker.len(),
            ));
            assert(text::occurs_at(rest, marker, found - n));
        }
    }
}

/// Real failures arrive wrapped in their callers' context. Context in front of
/// an error that holds no marker changes nothing about the error's class.
pub proof fn lemma_context_keeps_the_class(context: Seq<char>, error: ProviderError)
    requires
        holds_no_marker(context),
    ensures
        failure_class(context + error.rendering()) == failure_class(error.rendering()),
{
    let rest = error.rendering();
    lemma_told_behind_context(context, error);
    lemma_rate_limit_behind_context(context, error);
    text::lemma_first_from(rest, "Rate limited"@, 0);
    if let Some(at) = text::first_at(rest, "Rate limited"@) {
        assert((context + rest).skip(context.len() + at + "Rate limited"@.len()) =~= rest.skip(
            at + "Rate limited"@.len(),
        ));
    }
}

/// A rate limit reads back from its rendering, hint and all, whatever context
/// stands in front of it that does not speak of one.
pub proof fn lemma_rate_limit_reads_back(context: Seq<char>, retry_after_secs: Option<u64>)
    requires
        !text::has_text(context, "Rate limited"@),
    ensures
        failure_class(context + ProviderError::RateLimited { retry_after_secs }.rendering())
            == (ProviderFailureClass::RateLimited { retry_after_secs }),
{
    let error = ProviderError::RateLimited { retry_after_secs };
    let rest = error.rendering();
    let marker = "Rate limited"@;
    lemma_bare_rate_limit(retry_after_secs);
    lemma_rate_limit_behind_context(context, error);
    reveal_strlit("Rate limited");
    reveal_strlit("Rate limited, retry after ");
    assert(rest.subrange(0, marker.len() as int) =~= marker);
    assert(text::occurs_at(rest, marker, 0));
    assert((context + rest).skip(context.len() as int + marker.len()) =~= rest.skip(
        marker.len() as int,
    ));
}

/// A billing refusal reads back as one, unless its message speaks of a rate
/// limit, whatever context stands in front of it that does not.
pub proof fn lemma_payment_reads_back(context: Seq<char>, message: String)
    requires
        !text::has_text(context, "Rate limited"@),
        !text::has_text(message@, "Rate limited"@),
    ensures
        failure_class(context + ProviderError::Api { status: 402, message }.rendering())
            == ProviderFailureClass::PaymentRequired,
{
    let error = ProviderError::Api { status: 402, message };
    lemma_api_markers(402, message@);
    lemma_told_behind_context(context, error);
    text::lemma_first_at(context + error.rendering(), "Rate limited"@);
}

/// Rejected credentials read back as such, unless the message or the context
/// in front of them holds a marker that comes first.
pub proof fn lemma_rejection_reads_back(context: Seq<char>, status: u16, message: String)
    requires
        status == 401 || status == 403,
        !text::has_text(context, "Rate limited"@),
        !text::has_text(context, "API error (402)"@),
        !text::has_text(message@, "Rate limited"@),
        !text::has_text(message@, "API error (402)"@),
    ensures
        failure_class(context + ProviderError::Api { status, message }.rendering())
            == ProviderFailureClass::AuthFailed,
{
    let error = ProviderError::Api { status, message };
    lemma_api_markers(status, message@);
    lemma_told_behind_context(context, error);
    text::lemma_first_at(context + error.rendering(), "Rate limited"@);
}

/// The text that an error carries; empty where it carries none.
pub open spec fn carried_text(error: ProviderError) -> Seq<char> {
    match error {
        ProviderError::Network(text) => text@,
        ProviderError::Api { message, .. } => message@,
        ProviderError::ModelNotFound(text) => text@,
        ProviderError::Configuration(text) => text@,
        ProviderError::CapabilityNotSupported(text) => text@,
        ProviderError::ParseError(text) => text@,
        _ => Seq::empty(),
    }
}

/// Whether an error is of a class of its own: a rate limit, a billing refusal
/// or a rejection of the credentials.
pub open spec fn has_own_class(error: ProviderError) -> bool {
    match error {
        ProviderError::RateLimited { .. } => true,
        ProviderError::Api { status, .. } => 401 <= status <= 403,
        _ => false,
    }
}

/// Everything that is retryable and has no class of its own reads as transient,
/// unless the text that it carries or the context in front of it holds a
/// marker that comes first.
pub proof fn lemma_retryable_reads_transient(context: Seq<char>, error: ProviderError)
    requires
        error.retryable(),
        !has_own_class(error),
        unmarked(carried_text(error)),
        unmarked(context),
    ensures
        failure_class(context + error.rendering()) == ProviderFailureClass::Transient,
{
    lemma_told_behind_context(context, error);
    text::lemma_first_at(context + error.rendering(), "Rate limited"@);
    match error {
        ProviderError::Network(message) => {
            lemma_network_markers(message@);
        },
        ProviderError::Api { status, message } => {
            lemma_api_markers(status, message@);
            lemma_status_reads_back(status, message@);
            assert(passing_status(status_at(error.rendering(), 0)));
        },
        _ => {},
    }
}

/// A text behind a prefix that starts no marker tells what it tells alone.
proof fn lemma_told_behind_prefix(prefix: Seq<char>, text: Seq<char>)
    requires
        forall|i: int|
            0 <= i < prefix.len() ==> (#[trigger] prefix[i]) != 'A' && prefix[i] != 'R'
                && prefix[i] != 'N',
        holds_no_marker(text),
    ensures
        failure_class(prefix + text) == ProviderFailureClass::Other,
{
    reveal_strlit("Rate limited");
    reveal_strlit("API error (402)");
    reveal_strlit("API error (401)");
    reveal_strlit("API error (403)");
    reveal_strlit("API error (5");
    reveal_strlit("Network error:");
    let whole = prefix + text;
    lemma_no_start(prefix, text, "Rate limited"@);
    lemma_no_start(prefix, text, "API error (402)"@);
    lemma_no_start(prefix, text, "API error (401)"@);
    lemma_no_start(prefix, text, "API error (403)"@);
    lemma_no_start(prefix, text, "API error (5"@);
    lemma_no_start(prefix, text, "Network error:"@);
    text::lemma_first_at(whole, "Rate limited"@);
    lemma_statuses_behind(prefix, text, 0);
}

/// No status is told before `from`, so what is told stands in `text`.
proof fn lemma_statuses_behind(prefix: Seq<char>, text: Seq<char>, from: int)
    requires
        0 <= from <= prefix.len(),
        !tells_passing_status(text),
        from == 0 || !passing_status(status_at(prefix + text, 0)),
        forall|i: int| from <= i < prefix.len() ==> (#[trigger] prefix[i]) != 'A',
        from <= 1,
    ensures
        !tells_passing_status(prefix + text),
{
    reveal_strlit("API error (");
    let whole = prefix + text;
    let lead = "API error ("@;
    assert forall|at: int| 0 <= at implies !passing_status(#[trigger] status_at(whole, at)) by {
        if from <= at < prefix.len() {
            if text::occurs_at(whole, lead, at) {
                assert(whole.subrange(at, at + lead.len())[0] == whole[at]);
                assert(whole[at] == prefix[at]);
            }
        } else if at >= prefix.len() {
            lemma_status_shift(prefix, text, at - prefix.len());
            assert(!passing_status(status_at(text, at - prefix.len())));
        }
    }
}

/// What is not retryable and has no class of its own is told apart as well: it
/// reads as none of the classes, unless the text that it carries or the context
/// in front of it holds a marker.
pub proof fn lemma_permanent_reads_other(context: Seq<char>, error: ProviderError)
    requires
        !error.retryable(),
        !has_own_class(error),
        holds_no_marker(carried_text(error)),
        holds_no_marker(context),
    ensures
        failure_class(context + error.rendering()) == ProviderFailureClass::Other,
{
    lemma_context_keeps_the_class(context, error);
    reveal_strlit("Model not found: ");
    reveal_strlit("Configuration error: ");
    reveal_strlit("Capability not supported: ");
    reveal_strlit("Parse error: ");
    reveal_strlit("Provider not initialized");
    match error {
        ProviderError::Api { status, message } => {
            lemma_api_markers(status, message@);
            lemma_status_reads_back(status, message@);
            text::lemma_first_at(error.rendering(), "Rate limited"@);
            lemma_bad_request(message@);
        },
        ProviderError::ModelNotFound(text) => {
            lemma_told_behind_prefix("Model not found: "@, text@);
        },
        ProviderError::Configuration(text) => {
            lemma_told_behind_prefix("Configuration error: "@, text@);
        },
        ProviderError::CapabilityNotSupported(text) => {
            lemma_told_behind_prefix("Capability not supported: "@, text@);
        },
        ProviderError::ParseError(text) => {
            lemma_told_behind_prefix("Parse error: "@, text@);
        },
        _ => {
            lemma_told_behind_prefix("Provider not initialized"@, Seq::empty());
            assert("Provider not initialized"@ + Seq::<char>::empty()
                =~= "Provider not initialized"@);
        },
    }
}

proof fn lemma_bad_request(message: Seq<char>)
    requires
        holds_no_marker(message),
    ensures
        !tells_transient("API error ("@ + text::decimal(400) + "): "@ + message),
{
    reveal_strlit("API error (");
    reveal_strlit("): ");
    reveal_strlit("API error (5");
    reveal_strlit("Network error:");
    let prefix = "API error ("@ + text::decimal(400) + "): "@;
    let whole = prefix + message;
    lemma_three_digits(400);
    lemma_status_reads_back(400, message);
    assert forall|i: int| 1 <= i < prefix.len() implies (#[trigger] prefix[i]) != 'A' by {}
    lemma_statuses_behind(prefix, message, 1);
    lemma_no_start(prefix, message, "Network error:"@);
    lemma_api_marker(prefix, message, "API error (5"@);
    assert(prefix[11] == '4');
    assert(whole.subrange(0, 12)[11] == prefix[11]);
}

/// The gateway's id for a request, by the header fields it sent: the
/// generation's id where there is such a field, else the request's.
pub open spec fn trace_id_of(fields: Map<Seq<char>, Option<Seq<char>>>) -> Option<Seq<char>> {
    if fields.dom().contains("x-generation-id"@) {
        fields["x-generation-id"@]
    } else if fields.dom().contains("x-request-id"@) {
        fields["x-request-id"@]
    } else {
        None
    }
}

/// The gateway's id for a request. It lives in the headers, which arrive
/// before the body, so it survives the failures where the body does not.
pub fn gateway_trace_id(
    headers: &reqwest::header::HeaderMap<reqwest::header::HeaderValue>,
) -> (id: Option<String>)
    ensures
        text::optional(id) == trace_id_of(outside::header_fields(*headers)),
{
    proof {
        reveal_strlit("x-generation-id");
        reveal_strlit("x-request-id");
    }
    match outside::header_text(headers, "x-generation-id") {
        Some(value) => value,
        None => match outside::header_text(headers, "x-request-id") {
            Some(value) => value,
            None => None,
        },
    }
}

/// What a log line shows of a body that holds white space alone.
pub open spec fn padding_note(body: Seq<char>) -> Seq<char> {
    "<"@ + text::decimal(text::byte_length(body)) + " bytes of gateway padding, "@ + text::decimal(
        text::count_of(body, '\n'),
    ) + " newlines, no payload>"@
}

/// Renders a response body for a log line, never raw: a body of white space is
/// described, everything else is escaped. The line stays one line.
pub fn body_for_log(body: &str, max_bytes: usize) -> (line: String)
    ensures
        body@.len() == 0 ==> line@ == "<empty body>"@,
        body@.len() > 0 && text::blank(body@) ==> line@ == padding_note(body@),
        body@.len() > 0 && text::blank(body@) ==> line@ == "<"@ + text::decimal(
            text::byte_length(body@),
        ) + " bytes of gateway padding, "@ + text::decimal(text::count_of(body@, '\n'))
            + " newlines, no payload>"@,
        !text::blank(body@) ==> exists|part: Seq<char>|
            text::longest_fit(body@, part, max_bytes as nat) && line@
                == #[trigger] outside::debug_rendering(part),
        forall|i: int| 0 <= i < line@.len() ==> #[trigger] line@[i] != '\n',
{
    if body.is_empty() {
        proof {
            reveal_strlit("<empty body>");
        }
        return String::from_str("<empty body>");
    }
    if text::is_blank(body) {
        let mut line = String::from_str("<");
        let bytes = text::byte_len(body);
        text::push_decimal(&mut line, bytes as u64);
        line.append(" bytes of gateway padding, ");
        let feeds = text::count_char(body, '\n');
        text::push_decimal(&mut line, feeds as u64);
        line.append(" newlines, no payload>");
        proof {
            reveal_strlit("<");
            reveal_strlit(" bytes of gateway padding, ");
            reveal_strlit(" newlines, no payload>");
            text::lemma_decimal_reads_back(bytes as nat);
            text::lemma_decimal_reads_back(feeds as nat);
            let a = "<"@;
            let b = a + text::decimal(bytes as nat);
            let c = b + " bytes of gateway padding, "@;
            let d = c + text::decimal(feeds as nat);
            assert forall|i: int| 0 <= i < line@.len() implies #[trigger] line@[i] != '\n' by {
                if a.len() <= i < b.len() {
                    assert(text::is_digit(text::decimal(bytes as nat)[i - a.len()]));
                } else if c.len() <= i < d.len() {
                    assert(text::is_digit(text::decimal(feeds as nat)[i - c.len()]));
                }
            }
        }
        return line;
    }
    outside::debug_text(truncate_utf8(body, max_bytes))
}

/// How a message names the request it is about.
pub open spec fn trace_note(trace_id: Option<Seq<char>>) -> Seq<char> {
    match trace_id {
        Some(id) => " [generation "@ + id + "]"@,
        None => Seq::empty(),
    }
}

fn trace_text(trace_id: Option<&str>) -> (note: String)
    ensures
        note@ == trace_note(text::optional_slice(trace_id)),
{
    match trace_id {
        Some(id) => {
            let mut note = String::from_str(" [generation ");
            note.append(id);
            note.append("]");
            note
        },
        None => String::new(),
    }
}

/// What became of a body that ended before its value was complete.
pub open spec fn truncation_detail(body: Seq<char>, reason: Seq<char>) -> Seq<char> {
    if body.len() == 0 {
        "the gateway committed 200 and sent no body at all"@
    } else if text::blank(body) {
        "the gateway committed 200, padded for "@ + text::decimal(text::byte_length(body))
            + " bytes ("@ + text::decimal(text::count_of(body, '\n'))
            + " newlines), and ended the body without ever sending a payload"@
    } else {
        "the body ended mid-JSON after "@ + text::decimal(text::byte_length(body)) + " bytes ("@
            + reason + ")"@
    }
}

/// Whether `error` is what a body that would not deserialize calls for: a
/// connection failure where the input ran out, else a parse error. `reason` is
/// how the parser's own error reads.
pub open spec fn is_decode_error(
    error: ProviderError,
    what: Seq<char>,
    body: Seq<char>,
    ended: bool,
    reason: Seq<char>,
    trace_id: Option<Seq<char>>,
) -> bool {
    if ended {
        error matches ProviderError::Network(message) && message@ == "truncated "@ + what + ": "@
            + truncation_detail(body, reason) + trace_note(trace_id)
    } else {
        error matches ProviderError::ParseError(message) && message@ == "Failed to parse "@ + what
            + ": "@ + reason + trace_note(trace_id)
    }
}

/// Classifies a body that would not deserialize, by what the parser reported.
pub fn decode_failure(
    what: &str,
    body: &str,
    ended: bool,
    reason: &str,
    trace_id: Option<&str>,
) -> (error: ProviderError)
    ensures
        is_decode_error(
            error,
            what@,
            body@,
            ended,
            reason@,
            text::optional_slice(trace_id),
        ),
{
    let trace = trace_text(trace_id);
    if !ended {
        let mut message = String::from_str("Failed to parse ");
        message.append(what);
        message.append(": ");
        message.append(reason);
        message.append(trace.as_str());
        return ProviderError::ParseError(message);
    }
    let bytes = text::byte_len(body);
    let detail = if body.is_empty() {
        String::from_str("the gateway committed 200 and sent no body at all")
    } else if text::is_blank(body) {
        let mut detail = String::from_str("the gateway committed 200, padded for ");
        text::push_decimal(&mut detail, bytes as u64);
        detail.append(" bytes (");
        let feeds = text::count_char(body, '\n');
        text::push_decimal(&mut detail, feeds as u64);
        detail.append(" newlines), and ended the body without ever sending a payload");
        detail
    } else {
        let mut detail = String::from_str("the body ended mid-JSON after ");
        text::push_decimal(&mut detail, bytes as u64);
        detail.append(" bytes (");
        detail.append(reason);
        detail.append(")");
        detail
    };
    let mut message = String::from_str("truncated ");
    message.append(what);
    message.append(": ");
    message.append(detail.as_str());
    message.append(trace.as_str());
    ProviderError::Network(message)
}

/// Classifies a 2xx body that would not deserialize.
///
/// A gateway may commit its 200 before the upstream produces anything and then
/// hold the connection open with white space. A late failure ends such a body,
/// which leaves a complete, well-formed 200 that holds only padding: a
/// transport failure and not a malformed answer.
pub fn decode_error(
    what: &str,
    body: &str,
    err: &serde_json::Error,
    trace_id: Option<&str>,
) -> (error: ProviderError)
    ensures
        is_decode_error(
            error,
            what@,
            body@,
            outside::input_ended(*err),
            outside::json_error_rendering(*err),
            text::optional_slice(trace_id),
        ),
{
    let reason = outside::json_error_text(err);
    decode_failure(what, body, outside::json_input_ended(err), reason.as_str(), trace_id)
}

/// Whether `error` says that a stream closed without carrying a payload.
pub open spec fn is_delivered_nothing(
    error: ProviderError,
    what: Seq<char>,
    trace_id: Option<Seq<char>>,
) -> bool {
    error matches ProviderError::Network(message) && message@ == "truncated "@ + what
        + ": the gateway committed 200 and closed the stream without delivering any payload"@
        + trace_note(trace_id)
}

/// The streaming counterpart of [`decode_error`]: a committed 200 whose stream
/// closed without carrying a payload. That is not an empty answer but the
/// absence of one.
pub fn stream_delivered_nothing(what: &str, trace_id: Option<&str>) -> (error: ProviderError)
    ensures
        is_delivered_nothing(error, what@, text::optional_slice(trace_id)),
{
    let mut message = String::from_str("truncated ");
    message.append(what);
    message.append(
        ": the gateway committed 200 and closed the stream without delivering any payload",
    );
    let trace = trace_text(trace_id);
    message.append(trace.as_str());
    ProviderError::Network(message)
}

/// A body that was cut short is a failure that a retry may mend, and reads as
/// one, unless its message or the context in front of it holds a marker that
/// comes first.
pub proof fn lemma_truncation_is_transient(
    context: Seq<char>,
    error: ProviderError,
    what: Seq<char>,
    body: Seq<char>,
    reason: Seq<char>,
    trace_id: Option<Seq<char>>,
)
    requires
        unmarked(context),
        is_decode_error(error, what, body, true, reason, trace_id),
        error matches ProviderError::Network(message) ==> unmarked(message@),
    ensures
        error.retryable(),
        failure_class(context + error.rendering()) == ProviderFailureClass::Transient,
{
    lemma_retryable_reads_transient(context, error);
}

/// Bytes that arrived and were wrong are no failure that a retry mends.
pub proof fn lemma_malformed_is_permanent(
    error: ProviderError,
    what: Seq<char>,
    body: Seq<char>,
    reason: Seq<char>,
    trace_id: Option<Seq<char>>,
)
    requires
        is_decode_error(error, what, body, false, reason, trace_id),
    ensures
        !error.retryable(),
{
}

/// What may be retried: a rate limit, a connection failure, and every refusal
/// but a bad request and missing credentials.
pub proof fn lemma_what_may_be_retried(error: ProviderError)
    ensures
        error is Network ==> error.retryable(),
        error is RateLimited ==> error.retryable(),
        error matches ProviderError::Api { status, .. } ==> (error.retryable() <==> status != 400
            && status != 401),
        error is ModelNotFound ==> !error.retryable(),
        error is Configuration ==> !error.retryable(),
        error is CapabilityNotSupported ==> !error.retryable(),
        error is ParseError ==> !error.retryable(),
        error is NotInitialized ==> !error.retryable(),
{
}

/// A request is traced by its generation where the gateway names that, else by
/// the id of the request, and by nothing where it names neither.
pub proof fn lemma_the_generation_traces_a_request(fields: Map<Seq<char>, Option<Seq<char>>>)
    ensures
        fields.dom().contains("x-generation-id"@) ==> trace_id_of(fields)
            == fields["x-generation-id"@],
        !fields.dom().contains("x-generation-id"@) && fields.dom().contains("x-request-id"@)
            ==> trace_id_of(fields) == fields["x-request-id"@],
        !fields.dom().contains("x-generation-id"@) && !fields.dom().contains("x-request-id"@)
            ==> trace_id_of(fields) is None,
{
}

/// The error that a body calls for which would not deserialize says what was to
/// be read, why it was not, and by which generation it can be traced.
pub proof fn lemma_a_decode_error_says_what_and_why(
    error: ProviderError,
    what: Seq<char>,
    body: Seq<char>,
    ended: bool,
    reason: Seq<char>,
    trace_id: Option<Seq<char>>,
)
    requires
        is_decode_error(error, what, body, ended, reason, trace_id),
    ensures
        ended <==> error.retryable(),
        text::has_text(carried_text(error), what),
        trace_id matches Some(id) ==> text::has_text(
            carried_text(error),
            "[generation "@ + id + "]"@,
        ),
        !ended || !text::blank(body) ==> text::has_text(carried_text(error), reason),
{
    let none = Seq::<char>::empty();
    let message = carried_text(error);
    let note = trace_note(trace_id);
    if ended {
        let detail = truncation_detail(body, reason);
        let back = ": "@ + detail + note;
        assert(message =~= "truncated "@ + what + back);
        text::lemma_text_within("truncated "@, what, back);
        let front = "truncated "@ + what + ": "@ + detail;
        lemma_note_traces(front, trace_id);
        assert(message =~= front + note);
        if !text::blank(body) {
            let before = "the body ended mid-JSON after "@ + text::decimal(
                text::byte_length(body),
            ) + " bytes ("@;
            assert(detail =~= before + reason + ")"@);
            let early = "truncated "@ + what + ": "@ + before;
            let late = ")"@ + note;
            assert(message =~= early + reason + late);
            text::lemma_text_within(early, reason, late);
        }
    } else {
        let back = ": "@ + reason + note;
        assert(message =~= "Failed to parse "@ + what + back);
        text::lemma_text_within("Failed to parse "@, what, back);
        let before = "Failed to parse "@ + what + ": "@;
        assert(message =~= before + reason + note);
        text::lemma_text_within(before, reason, note);
        lemma_note_traces(before + reason, trace_id);
    }
}

proof fn lemma_note_traces(front: Seq<char>, trace_id: Option<Seq<char>>)
    ensures
        trace_id matches Some(id) ==> text::has_text(
            front + trace_note(trace_id),
            "[generation "@ + id + "]"@,
        ),
{
    if let Some(id) = trace_id {
        reveal_strlit(" [generation ");
        reveal_strlit("[generation ");
        let needle = "[generation "@ + id + "]"@;
        let none = Seq::<char>::empty();
        assert(trace_note(trace_id) =~= seq![' '] + needle);
        assert(front + trace_note(trace_id) =~= (front + seq![' ']) + needle + none);
        text::lemma_text_within(front + seq![' '], needle, none);
    }
}

/// A stream that delivered nothing is no empty answer but a connection failure,
/// which a retry may mend, and it can be traced by its generation.
pub proof fn lemma_nothing_delivered_is_a_failure(
    error: ProviderError,
    what: Seq<char>,
    trace_id: Option<Seq<char>>,
)
    requires
        is_delivered_nothing(error, what, trace_id),
    ensures
        error is Network,
        error.retryable(),
        text::has_text(carried_text(error), what),
        trace_id matches Some(id) ==> text::has_text(
            carried_text(error),
            "[generation "@ + id + "]"@,
        ),
{
    let front = "truncated "@ + what
        + ": the gateway committed 200 and closed the stream without delivering any payload"@;
    lemma_note_traces(front, trace_id);
    let back = ": the gateway committed 200 and closed the stream without delivering any payload"@
        + trace_note(trace_id);
    assert(carried_text(error) =~= "truncated "@ + what + back);
    text::lemma_text_within("truncated "@, what, back);
}

/// Every message has a class, and each marker tells one: a rate limit before a
/// billing refusal, that before rejected credentials, and these before anything
/// that may pass.
pub proof fn lemma_each_marker_tells_a_class(message: Seq<char>)
    ensures
        ({
            let limited = text::has_text(message, "Rate limited"@);
            let billing = text::has_text(message, "API error (402)"@);
            let rejected = text::has_text(message, "API error (401)"@) || text::has_text(
                message,
                "API error (403)"@,
            );
            let class = failure_class(message);
            &&& limited <==> class is RateLimited
            &&& !limited && billing <==> class is PaymentRequired
            &&& !limited && !billing && rejected <==> class is AuthFailed
            &&& class is Transient ==> text::has_text(message, "API error ("@) || text::has_text(
                message,
                "Network error:"@,
            )
            &&& !limited && !billing && !rejected && (text::has_text(message, "API error (5"@)
                || text::has_text(message, "Network error:"@)) ==> class is Transient
        }),
{
    text::lemma_first_at(message, "Rate limited"@);
    if failure_class(message) is Transient {
        if text::has_text(message, "API error (5"@) {
            reveal_strlit("API error (5");
            reveal_strlit("API error (");
            assert("API error (5"@.subrange(0, 11) =~= "API error ("@);
            assert(text::occurs_at("API error (5"@, "API error ("@, 0));
            text::lemma_text_in_text("API error ("@, "API error (5"@, message);
        } else if tells_passing_status(message) {
            let at = choose|at: int| 0 <= at && passing_status(#[trigger] status_at(message, at));
            assert(text::occurs_at(message, "API error ("@, at));
        }
    }
}

/// The delay that a rate limit asks for is the number behind the words, wherever
/// they stand and whatever follows that is no digit.
pub proof fn lemma_the_delay_is_read_where_it_stands(
    context: Seq<char>,
    secs: u64,
    rest: Seq<char>,
)
    requires
        !text::has_text(context + "Rate limited"@.drop_last(), "Rate limited"@),
        rest.len() == 0 || !text::is_digit(rest[0]),
    ensures
        failure_class(context + "Rate limited"@ + ", retry after "@ + text::decimal(secs as nat) + rest)
            == (ProviderFailureClass::RateLimited { retry_after_secs: Some(secs) }),
{
    reveal_strlit("Rate limited");
    reveal_strlit(", retry after ");
    let marker = "Rate limited"@;
    let lead = ", retry after "@;
    let shown = text::decimal(secs as nat);
    let message = context + marker + lead + shown + rest;
    let n = context.len() as int;
    assert(message.subrange(n, n + marker.len()) =~= marker);
    assert(text::occurs_at(message, marker, n));
    text::lemma_first_from(message, marker, 0);
    let at = text::first_at(message, marker)->0;
    if at < n {
        let short = context + marker.drop_last();
        assert(message.subrange(at, at + marker.len()) =~= short.subrange(at, at + marker.len()));
        assert(text::occurs_at(short, marker, at));
    }
    let tail = message.skip(at + marker.len());
    assert(tail =~= lead + shown + rest);
    assert(tail.subrange(0, lead.len() as int) =~= lead);
    let digits = tail.skip(lead.len() as int);
    assert(digits =~= shown + rest);
    text::lemma_decimal_reads_back(secs as nat);
    let k = shown.len() as int;
    assert forall|i: int| 0 <= i < k implies text::digits().contains(#[trigger] digits[i]) by {
        assert(digits[i] == shown[i]);
        assert(text::is_digit(shown[i]));
    }
    if rest.len() > 0 {
        assert(digits[k] == rest[0]);
    }
    text::lemma_drop_front(digits, text::digits(), k);
    assert(text::leading(digits, text::digits()) =~= shown);
    text::lemma_numbers_read_back(secs, 0);
}


} // verus!
