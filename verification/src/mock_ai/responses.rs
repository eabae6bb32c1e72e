//! What the server answers with.

use crate::json;
use crate::json::Json;
use crate::json::JsonTree;
use crate::text;
use vstd::prelude::*;

verus! {

/// The body of an answer.
#[derive(Debug, PartialEq)]
pub enum MockBody {
    Empty,
    Json(Json),
    /// A body that is sent as it stands.
    Raw { text: String, content_type: String },
}

/// An answer, before it goes out over the wire.
#[derive(Debug, PartialEq)]
pub struct MockResponse {
    pub status: u16,
    /// A header field, by name and value.
    pub header: Option<(String, String)>,
    pub body: MockBody,
    /// How long the answer is held before it is sent.
    pub delay_nanos: Option<u128>,
}

/// What a body is.
pub enum BodyView {
    Empty,
    Json(JsonTree),
    Raw { text: Seq<char>, content_type: Seq<char> },
}

/// What an answer is.
pub struct ResponseView {
    pub status: u16,
    pub header: Option<(Seq<char>, Seq<char>)>,
    pub body: BodyView,
    pub delay_nanos: Option<u128>,
}

impl View for MockBody {
    type V = BodyView;

    open spec fn view(&self) -> BodyView {
        match self {
            MockBody::Empty => BodyView::Empty,
            MockBody::Json(json) => BodyView::Json(json@),
            MockBody::Raw { text, content_type } => BodyView::Raw {
                text: text@,
                content_type: content_type@,
            },
        }
    }
}

impl View for MockResponse {
    type V = ResponseView;

    open spec fn view(&self) -> ResponseView {
        ResponseView {
            status: self.status,
            header: match self.header {
                Some((name, value)) => Some((name@, value@)),
                None => None,
            },
            body: self.body@,
            delay_nanos: self.delay_nanos,
        }
    }
}

impl ResponseView {
    /// An answer without a body.
    pub open spec fn bare(status: u16) -> ResponseView {
        ResponseView { status, header: None, body: BodyView::Empty, delay_nanos: None }
    }

    /// An answer with a JSON body.
    pub open spec fn with_json(status: u16, json: JsonTree) -> ResponseView {
        ResponseView { status, header: None, body: BodyView::Json(json), delay_nanos: None }
    }

    /// A stream, sent in one piece.
    pub open spec fn stream(text: Seq<char>, content_type: Seq<char>) -> ResponseView {
        ResponseView {
            status: 200,
            header: Some(("Content-Type"@, content_type)),
            body: BodyView::Raw { text, content_type },
            delay_nanos: None,
        }
    }

    /// The answer, held for `delay` where there is one.
    pub open spec fn held(self, delay: Option<u128>) -> ResponseView {
        match delay {
            Some(delay) => ResponseView { delay_nanos: Some(delay), ..self },
            None => self,
        }
    }
}

impl MockResponse {
    pub fn bare(status: u16) -> (response: MockResponse)
        ensures
            response@ == ResponseView::bare(status),
            response.status == status,
            response.header is None,
            response.body is Empty,
            response.delay_nanos is None,
    {
        MockResponse { status, header: None, body: MockBody::Empty, delay_nanos: None }
    }

    pub fn with_json(status: u16, json: Json) -> (response: MockResponse)
        ensures
            response@ == ResponseView::with_json(status, json@),
            response.status == status,
            response.header is None,
            response.body matches MockBody::Json(body) && body@ == json@,
            response.delay_nanos is None,
    {
        MockResponse { status, header: None, body: MockBody::Json(json), delay_nanos: None }
    }

    pub fn stream(text: String, content_type: &str) -> (response: MockResponse)
        ensures
            response@ == ResponseView::stream(text@, content_type@),
            response.status == 200,
            response.header matches Some((name, value)) && name@ == "Content-Type"@ && value@
                == content_type@,
            response.body matches MockBody::Raw { text: sent, content_type: kind } && sent@ == text@
                && kind@ == content_type@,
            response.delay_nanos is None,
    {
        MockResponse {
            status: 200,
            header: Some((String::from_str("Content-Type"), content_type.to_owned())),
            body: MockBody::Raw { text, content_type: content_type.to_owned() },
            delay_nanos: None,
        }
    }

    /// Holds the answer for `delay` where there is one.
    pub fn held(self, delay: Option<u128>) -> (response: MockResponse)
        ensures
            response@ == self@.held(delay),
            response.status == self.status,
            response.header == self.header,
            response.body == self.body,
            response.delay_nanos == (if delay is Some {
                delay
            } else {
                self.delay_nanos
            }),
    {
        match delay {
            Some(delay) => MockResponse {
                status: self.status,
                header: self.header,
                body: self.body,
                delay_nanos: Some(delay),
            },
            None => self,
        }
    }
}

/// A failure that is served in place of the normal answer while it is set.
/// Lets tests exercise how providers handle status codes: retries, rate limits,
/// billing.
#[derive(Debug, Clone, Copy, PartialEq, Eq)]
pub enum InjectedFailure {
    /// Status 429, with a `Retry-After` of so many seconds where they are given.
    RateLimited { retry_after_secs: Option<u64> },
    /// Status 402 with an error body as providers send it.
    PaymentRequired,
    /// Status 401 with an error body as providers send it: an API key that
    /// expired or was revoked.
    Unauthorized,
}

/// An error body as providers send it.
pub open spec fn error_json(message: Seq<char>) -> JsonTree {
    JsonTree::Object(
        Map::<Seq<char>, JsonTree>::empty().insert(
            "error"@,
            JsonTree::Object(
                Map::<Seq<char>, JsonTree>::empty().insert("message"@, JsonTree::Text(message)),
            ),
        ),
    )
}

pub fn error_body(message: &str) -> (json: Json)
    ensures
        json@ == error_json(message@),
{
    let mut inner: Vec<(String, Json)> = Vec::new();
    json::put(&mut inner, "message", json::string(message));
    let mut outer: Vec<(String, Json)> = Vec::new();
    json::put(&mut outer, "error", Json::Object(inner));
    Json::Object(outer)
}

impl InjectedFailure {
    /// The answer that serves a failure.
    pub open spec fn served(self) -> ResponseView {
        match self {
            InjectedFailure::RateLimited { retry_after_secs } => ResponseView {
                header: match retry_after_secs {
                    Some(secs) => Some(("Retry-After"@, text::decimal(secs as nat))),
                    None => None,
                },
                ..ResponseView::with_json(429, error_json("mock rate limit exceeded"@))
            },
            InjectedFailure::PaymentRequired => ResponseView::with_json(
                402,
                error_json("mock insufficient credits"@),
            ),
            InjectedFailure::Unauthorized => ResponseView::with_json(
                401,
                error_json("mock invalid api key"@),
            ),
        }
    }

    pub fn response(self) -> (response: MockResponse)
        ensures
            response@ == self.served(),
            self is RateLimited ==> response.status == 429,
            self is PaymentRequired ==> response.status == 402,
            self is Unauthorized ==> response.status == 401,
            self matches InjectedFailure::RateLimited { retry_after_secs: Some(secs) } ==> (
            response.header matches Some((name, value)) && name@ == "Retry-After"@ && value@
                == text::decimal(secs as nat)),
            self matches InjectedFailure::RateLimited { retry_after_secs: None } ==> response.header
                is None,
            !(self is RateLimited) ==> response.header is None,
            response.delay_nanos is None,
    {
        match self {
            InjectedFailure::RateLimited { retry_after_secs } => {
                let header = match retry_after_secs {
                    Some(secs) => {
                        let mut value = String::new();
                        text::push_decimal(&mut value, secs);
                        assert(value@ =~= text::decimal(secs as nat));
                        Some((String::from_str("Retry-After"), value))
                    },
                    None => None,
                };
                MockResponse {
                    status: 429,
                    header,
                    body: MockBody::Json(error_body("mock rate limit exceeded")),
                    delay_nanos: None,
                }
            },
            InjectedFailure::PaymentRequired => MockResponse::with_json(
                402,
                error_body("mock insufficient credits"),
            ),
            InjectedFailure::Unauthorized => MockResponse::with_json(
                401,
                error_body("mock invalid api key"),
            ),
        }
    }
}

// ==================== Laws ====================

/// An error body says what went wrong, where providers say it.
pub proof fn lemma_an_error_body_says_what_went_wrong(message: Seq<char>)
    ensures
        error_json(message).field("error"@) matches Some(inner) && inner.text_field("message"@)
            == Some(message),
{
}

/// A failure is served with the status that stands for it, and says what it is.
pub proof fn lemma_a_failure_is_served_as_itself(failure: InjectedFailure)
    ensures
        failure is RateLimited ==> failure.served().status == 429 && failure.served().body
            == BodyView::Json(error_json("mock rate limit exceeded"@)),
        failure is PaymentRequired ==> failure.served().status == 402 && failure.served().body
            == BodyView::Json(error_json("mock insufficient credits"@)),
        failure is Unauthorized ==> failure.served().status == 401 && failure.served().body
            == BodyView::Json(error_json("mock invalid api key"@)),
        failure.served().header == (match failure {
            InjectedFailure::RateLimited { retry_after_secs: Some(secs) } => Some(
                ("Retry-After"@, text::decimal(secs as nat)),
            ),
            _ => None,
        }),
{
}

/// An answer that is held is the same answer, later.
pub proof fn lemma_holding_keeps_the_answer(response: ResponseView, delay: u128)
    ensures
        response.held(None) == response,
        response.held(Some(delay)).status == response.status,
        response.held(Some(delay)).header == response.header,
        response.held(Some(delay)).body == response.body,
        response.held(Some(delay)).delay_nanos == Some(delay),
{
}


} // verus!
