//! The server itself: its knobs, its counters, and how it answers.

use crate::json;
use crate::json::Json;
use crate::json::JsonTree;
use crate::mock_ai::answers;
use crate::mock_ai::requests;
use crate::mock_ai::responses;
use crate::mock_ai::responses::InjectedFailure;
use crate::mock_ai::responses::MockResponse;
use crate::mock_ai::responses::ResponseView;
use crate::mock_ai::streams;
use crate::mock_ai::streams::CallIds;
use crate::mock_ai::streams::ScriptedCall;
use crate::outside;
use crate::text;
use vstd::prelude::*;

verus! {

/// How long an answer is held that a prompt asks to be slow.
pub const SLOW_NANOS: u128 = 1_500_000_000;

/// A server that mimics the providers' endpoints.
#[derive(Debug, PartialEq)]
pub struct MockAiServer {
    uri: String,
    embedding_requests: usize,
    chat_requests: usize,
    title_requests: usize,
    chat_models: Vec<String>,
    chat_bodies: Vec<Json>,
    embedding_failure: Option<InjectedFailure>,
    chat_failure: Option<InjectedFailure>,
    title_failure: Option<InjectedFailure>,
    chat_delay: Option<u128>,
    chat_force_tool_calls: bool,
    chat_tool_call: Option<ScriptedCall>,
    research_tool_rounds: Vec<Vec<ScriptedCall>>,
    research_force_tool_calls: bool,
    stream_script: Option<String>,
}

/// A scripted call, by name and arguments.
pub type CallView = (Seq<char>, JsonTree);

/// What a server has seen and how its knobs stand.
#[verifier::ext_equal]
pub struct MockAiState {
    pub uri: Seq<char>,
    pub embedding_requests: usize,
    pub chat_requests: usize,
    pub title_requests: usize,
    /// The models that chat requests asked for, in the order of arrival.
    pub chat_models: Seq<Seq<char>>,
    /// The bodies of chat requests, in the order of arrival.
    pub chat_bodies: Seq<JsonTree>,
    /// Served in place of embeddings.
    pub embedding_failure: Option<InjectedFailure>,
    /// Served in place of a completion.
    pub chat_failure: Option<InjectedFailure>,
    /// Served in place of a conversation's title.
    pub title_failure: Option<InjectedFailure>,
    /// How long every chat answer is held.
    pub chat_delay: Option<u128>,
    /// Whether a streaming request that offers tools always gets a call.
    pub chat_force_tool_calls: bool,
    /// The call that a streaming turn makes in place of a search.
    pub chat_tool_call: Option<CallView>,
    /// What the research leg calls, turn by turn.
    pub research_tool_rounds: Seq<Seq<CallView>>,
    /// Whether the research leg repeats its last round for ever.
    pub research_force_tool_calls: bool,
    /// Sent as it stands to every streaming request.
    pub stream_script: Option<Seq<char>>,
}

/// What a round of calls is.
pub open spec fn round_view(round: Seq<ScriptedCall>) -> Seq<CallView> {
    Seq::new(round.len(), |i: int| streams::call_view(round[i]))
}

/// What a script of rounds is.
pub open spec fn rounds_view(rounds: Seq<Vec<ScriptedCall>>) -> Seq<Seq<CallView>> {
    Seq::new(rounds.len(), |i: int| round_view(rounds[i]@))
}

impl View for MockAiServer {
    type V = MockAiState;

    closed spec fn view(&self) -> MockAiState {
        MockAiState {
            uri: self.uri@,
            embedding_requests: self.embedding_requests,
            chat_requests: self.chat_requests,
            title_requests: self.title_requests,
            chat_models: text::texts(self.chat_models@),
            chat_bodies: json::trees(self.chat_bodies@),
            embedding_failure: self.embedding_failure,
            chat_failure: self.chat_failure,
            title_failure: self.title_failure,
            chat_delay: self.chat_delay,
            chat_force_tool_calls: self.chat_force_tool_calls,
            chat_tool_call: streams::optional_call(self.chat_tool_call),
            research_tool_rounds: rounds_view(self.research_tool_rounds@),
            research_force_tool_calls: self.research_force_tool_calls,
            stream_script: text::optional(self.stream_script),
        }
    }
}

impl MockAiState {
    /// A server that listens at `uri` and that nobody has talked to.
    pub open spec fn fresh(uri: Seq<char>) -> MockAiState {
        MockAiState {
            uri,
            embedding_requests: 0,
            chat_requests: 0,
            title_requests: 0,
            chat_models: Seq::empty(),
            chat_bodies: Seq::empty(),
            embedding_failure: None,
            chat_failure: None,
            title_failure: None,
            chat_delay: None,
            chat_force_tool_calls: false,
            chat_tool_call: None,
            research_tool_rounds: Seq::empty(),
            research_force_tool_calls: false,
            stream_script: None,
        }
    }
}

impl MockAiServer {
    /// A server that listens at `uri`.
    pub fn new(uri: &str) -> (server: MockAiServer)
        ensures
            server@ == MockAiState::fresh(uri@),
            server@.uri == uri@,
            server@.embedding_requests == 0 && server@.chat_requests == 0 && server@.title_requests
                == 0,
            server@.chat_models.len() == 0 && server@.chat_bodies.len() == 0,
            server@.embedding_failure is None && server@.chat_failure is None
                && server@.title_failure is None,
            server@.chat_delay is None && server@.stream_script is None,
            !server@.chat_force_tool_calls && server@.chat_tool_call is None,
            !server@.research_force_tool_calls && server@.research_tool_rounds.len() == 0,
    {
        let server = MockAiServer {
            uri: uri.to_owned(),
            embedding_requests: 0,
            chat_requests: 0,
            title_requests: 0,
            chat_models: Vec::new(),
            chat_bodies: Vec::new(),
            embedding_failure: None,
            chat_failure: None,
            title_failure: None,
            chat_delay: None,
            chat_force_tool_calls: false,
            chat_tool_call: None,
            research_tool_rounds: Vec::new(),
            research_force_tool_calls: false,
            stream_script: None,
        };
        assert(server@ =~= MockAiState::fresh(uri@));
        server
    }

    /// Where providers reach the server. They add their own paths.
    pub fn base_url(&self) -> (url: String)
        ensures
            url@ == self@.uri,
    {
        self.uri.clone()
    }

    pub fn embedding_request_count(&self) -> (n: usize)
        ensures
            n == self@.embedding_requests,
    {
        self.embedding_requests
    }

    pub fn chat_request_count(&self) -> (n: usize)
        ensures
            n == self@.chat_requests,
    {
        self.chat_requests
    }

    /// Title requests so far. Zero means that the detached title task never
    /// reached the provider.
    pub fn title_request_count(&self) -> (n: usize)
        ensures
            n == self@.title_requests,
    {
        self.title_requests
    }

    /// The model that each chat request asked for, in the order of arrival.
    pub fn chat_request_models(&self) -> (models: Vec<String>)
        ensures
            text::texts(models@) == self@.chat_models,
    {
        text::copy_texts(&self.chat_models)
    }

    /// The body of each chat request, in the order of arrival.
    pub fn chat_request_bodies(&self) -> (bodies: Vec<Json>)
        ensures
            json::trees(bodies@) == self@.chat_bodies,
    {
        let mut bodies: Vec<Json> = Vec::new();
        let mut at: usize = 0;
        while at < self.chat_bodies.len()
            invariant
                at <= self.chat_bodies.len(),
                bodies@.len() == at,
                forall|i: int|
                    0 <= i < at ==> json::tree_of(#[trigger] bodies@[i]) == json::tree_of(
                        self.chat_bodies@[i],
                    ),
            decreases self.chat_bodies.len() - at,
        {
            bodies.push(self.chat_bodies[at].clone());
            at = at + 1;
        }
        proof {
            json::lemma_trees(bodies@);
            json::lemma_trees(self.chat_bodies@);
            assert(json::trees(bodies@) =~= json::trees(self.chat_bodies@));
        }
        bodies
    }

    /// Makes embedding requests fail until cleared with `None`.
    pub fn set_embedding_failure(&mut self, failure: Option<InjectedFailure>)
        ensures
            final(self)@ == (MockAiState { embedding_failure: failure, ..old(self)@ }),
    {
        self.embedding_failure = failure;
    }

    /// Makes chat requests fail until cleared with `None`.
    pub fn set_chat_failure(&mut self, failure: Option<InjectedFailure>)
        ensures
            final(self)@ == (MockAiState { chat_failure: failure, ..old(self)@ }),
    {
        self.chat_failure = failure;
    }

    /// Makes title requests fail until cleared with `None`.
    pub fn set_title_failure(&mut self, failure: Option<InjectedFailure>)
        ensures
            final(self)@ == (MockAiState { title_failure: failure, ..old(self)@ }),
    {
        self.title_failure = failure;
    }

    /// Holds every chat answer, so that requests overlap in flight.
    pub fn set_chat_delay(&mut self, delay_nanos: Option<u128>)
        ensures
            final(self)@ == (MockAiState { chat_delay: delay_nanos, ..old(self)@ }),
    {
        self.chat_delay = delay_nanos;
    }

    /// Makes every streaming request that offers tools get another call, so
    /// that an agent loop runs until its own cap stops it.
    pub fn set_chat_force_tool_calls(&mut self, force: bool)
        ensures
            final(self)@ == (MockAiState { chat_force_tool_calls: force, ..old(self)@ }),
    {
        self.chat_force_tool_calls = force;
    }

    /// Sets the call that a streaming turn makes in place of a search.
    pub fn set_chat_tool_call(&mut self, call: Option<ScriptedCall>)
        ensures
            final(self)@ == (MockAiState {
                chat_tool_call: streams::optional_call(call),
                ..old(self)@
            }),
    {
        self.chat_tool_call = call;
    }

    /// Scripts the research leg: each round is what the model calls on that
    /// turn, and it calls `done` once the script runs out.
    pub fn set_research_tool_rounds(&mut self, rounds: Vec<Vec<ScriptedCall>>)
        ensures
            final(self)@ == (MockAiState {
                research_tool_rounds: rounds_view(rounds@),
                ..old(self)@
            }),
    {
        self.research_tool_rounds = rounds;
    }

    /// Keeps the research leg on its last round for ever. Where there is no
    /// script there is nothing to repeat.
    pub fn set_research_force_tool_calls(&mut self, force: bool)
        ensures
            final(self)@ == (MockAiState { research_force_tool_calls: force, ..old(self)@ }),
    {
        self.research_force_tool_calls = force;
    }

    /// Answers every streaming request with `body` as it stands, on whichever
    /// endpoint it arrives.
    pub fn set_stream_script(&mut self, body: Option<&str>)
        ensures
            final(self)@ == (MockAiState {
                stream_script: text::optional_slice(body),
                ..old(self)@
            }),
    {
        self.stream_script = match body {
            Some(body) => Some(body.to_owned()),
            None => None,
        };
    }

    /// Forgets what was counted and recorded. The knobs stay as they are.
    pub fn reset_counts(&mut self)
        ensures
            final(self)@ == (MockAiState {
                embedding_requests: 0,
                chat_requests: 0,
                title_requests: 0,
                chat_models: Seq::empty(),
                chat_bodies: Seq::empty(),
                ..old(self)@
            }),
    {
        self.embedding_requests = 0;
        self.chat_requests = 0;
        self.title_requests = 0;
        self.chat_models = Vec::new();
        self.chat_bodies = Vec::new();
        assert(text::texts(self.chat_models@) =~= Seq::empty());
    }
}

// ==================== Chat ====================

/// What a server knows after a chat request with this body.
pub open spec fn recorded(state: MockAiState, body: JsonTree) -> MockAiState {
    MockAiState {
        chat_models: match body.text_field("model"@) {
            Some(model) => state.chat_models.push(model),
            None => state.chat_models,
        },
        chat_bodies: state.chat_bodies.push(body),
        ..state
    }
}

/// What a request says, in lower case.
pub open spec fn said_in(body: JsonTree) -> Seq<char> {
    outside::lowercase(json::text_of(body))
}

/// Whether a request asks for a conversation's title.
pub open spec fn asks_for_title(said: Seq<char>) -> bool {
    text::has_text(said, "conversation title"@)
}

/// A title as models decorate it, for a caller to clean.
pub const DECORATED_TITLE: &'static str = "\"Notes About Pelicans.\"";

/// How a title request is answered, where `title` is the answer.
pub open spec fn title_reply(state: MockAiState, title: JsonTree) -> (MockAiState, ResponseView) {
    (
        MockAiState { title_requests: streams::following(state.title_requests), ..state },
        match state.title_failure {
            Some(failure) => failure.served(),
            None => ResponseView::with_json(200, title),
        },
    )
}

/// How a request is answered that is neither streamed nor offers tools.
pub open spec fn plain_reply(state: MockAiState, body: JsonTree) -> (MockAiState, ResponseView) {
    let said = said_in(body);
    if asks_for_title(said) {
        title_reply(state, answers::prose(DECORATED_TITLE@))
    } else if answers::wire_schema(body) is None && text::has_text(said, "citations_used:"@) {
        (
            state,
            if text::has_text(said, "wikifail"@) {
                ResponseView::with_json(
                    400,
                    responses::error_json("mock wiki generation failure"@),
                )
            } else {
                ResponseView::with_json(
                    200,
                    answers::prose(answers::long_text(body, said)),
                ).held(
                    if text::has_text(said, "wikislow"@) {
                        Some(SLOW_NANOS)
                    } else {
                        None
                    },
                )
            },
        )
    } else {
        (
            state,
            ResponseView::with_json(200, answers::prose(answers::structured(body, said))),
        )
    }
}

/// How a chat request is answered on the endpoint that all providers but
/// Ollama use.
pub open spec fn chat_reply(state: MockAiState, ids: CallIds, body: JsonTree) -> (
    MockAiState,
    CallIds,
    ResponseView,
) {
    if requests::wants_stream(body) {
        match state.stream_script {
            Some(script) => (state, ids, ResponseView::stream(script, "text/event-stream"@)),
            None => {
                let force = state.chat_force_tool_calls;
                let leg = streams::leg(body, force, state.chat_tool_call, ids.streamed);
                (
                    state,
                    CallIds { streamed: streams::number_after(body, force, ids.streamed), ..ids },
                    ResponseView::stream(
                        streams::event_stream(streams::chunks_of(leg)),
                        "text/event-stream"@,
                    ),
                )
            },
        }
    } else if requests::tools_offered(body) {
        let round = answers::round_for(
            state.research_tool_rounds,
            requests::tool_rounds(requests::messages(body)),
            state.research_force_tool_calls,
        );
        (
            state,
            CallIds { research: answers::numbered(ids.research, round.len()), ..ids },
            ResponseView::with_json(200, answers::research(round, ids.research)),
        )
    } else {
        let (after, response) = plain_reply(state, body);
        (after, ids, response)
    }
}

/// How a chat request is answered on Ollama's endpoint.
pub open spec fn ollama_reply(state: MockAiState, ids: CallIds, body: JsonTree) -> (
    MockAiState,
    CallIds,
    ResponseView,
) {
    if requests::wants_stream(body) {
        match state.stream_script {
            Some(script) => (state, ids, ResponseView::stream(script, "text/event-stream"@)),
            None => {
                let force = state.chat_force_tool_calls;
                let leg = streams::leg(body, force, state.chat_tool_call, ids.streamed);
                (
                    state,
                    CallIds { streamed: streams::number_after(body, force, ids.streamed), ..ids },
                    ResponseView::stream(
                        streams::line_stream(streams::lines_of(leg)),
                        "application/x-ndjson"@,
                    ),
                )
            },
        }
    } else if asks_for_title(said_in(body)) {
        let (after, response) = title_reply(state, streams::closed_line(DECORATED_TITLE@));
        (after, ids, response)
    } else {
        (state, ids, ResponseView::with_json(200, streams::closed_line("{}"@)))
    }
}

/// Which chat endpoint a request arrives on.
#[derive(Debug, Clone, Copy, PartialEq, Eq, Structural)]
pub enum Endpoint {
    /// `/v1/chat/completions`.
    Completions,
    /// `/api/chat`.
    Ollama,
}

/// How a chat request is answered, where `body` is what it holds, if that is
/// JSON. Every request is counted and every answer is held alike.
pub open spec fn answered(
    state: MockAiState,
    ids: CallIds,
    endpoint: Endpoint,
    body: Option<JsonTree>,
) -> (MockAiState, CallIds, ResponseView) {
    let counted = MockAiState {
        chat_requests: streams::following(state.chat_requests),
        ..state
    };
    match state.chat_failure {
        Some(failure) => (counted, ids, failure.served().held(state.chat_delay)),
        None => match body {
            None => (counted, ids, ResponseView::bare(400).held(state.chat_delay)),
            Some(body) => {
                let (after, ids, response) = match endpoint {
                    Endpoint::Completions => chat_reply(recorded(counted, body), ids, body),
                    Endpoint::Ollama => ollama_reply(recorded(counted, body), ids, body),
                };
                (after, ids, response.held(state.chat_delay))
            },
        },
    }
}

impl MockAiServer {
    fn record(&mut self, body: &Json)
        ensures
            final(self)@ == recorded(old(self)@, body@),
            final(self).research_tool_rounds == old(self).research_tool_rounds,
    {
        let ghost before = self.chat_models@;
        if let Some(model) = body.get_str("model") {
            self.chat_models.push(model.to_owned());
            assert(text::texts(self.chat_models@) =~= text::texts(before).push(model@));
        }
        let ghost bodies = self.chat_bodies@;
        self.chat_bodies.push(body.clone());
        assert(self.chat_bodies@.drop_last() =~= bodies);
        assert(self@ =~= recorded(old(self)@, body@));
    }

    /// Answers a title request with `title`.
    fn answer_title(&mut self, title: Json) -> (response: MockResponse)
        ensures
            (final(self)@, response@) == title_reply(old(self)@, title@),
    {
        self.title_requests = streams::next_number(self.title_requests);
        match self.title_failure {
            Some(failure) => failure.response(),
            None => MockResponse::with_json(200, title),
        }
    }

    fn answer_plainly(&mut self, body: &Json) -> (response: MockResponse)
        ensures
            (final(self)@, response@) == plain_reply(old(self)@, body@),
    {
        let said = outside::to_lowercase(json::print(body).as_str());
        if text::contains(said.as_str(), "conversation title") {
            return self.answer_title(answers::prose_completion(DECORATED_TITLE));
        }
        let schema = answers::schema_on_wire(body);
        if schema.is_none() && text::contains(said.as_str(), "citations_used:") {
            if text::contains(said.as_str(), "wikifail") {
                return MockResponse::with_json(
                    400,
                    responses::error_body("mock wiki generation failure"),
                );
            }
            let content = answers::write_long_text(body, said.as_str());
            let response = MockResponse::with_json(
                200,
                answers::prose_completion(content.as_str()),
            );
            return if text::contains(said.as_str(), "wikislow") {
                response.held(Some(SLOW_NANOS))
            } else {
                response
            };
        }
        let content = answers::write_structured(body, said.as_str());
        MockResponse::with_json(200, answers::prose_completion(content.as_str()))
    }

    fn answer_chat(&mut self, body: &Json, ids: &mut CallIds) -> (response: MockResponse)
        ensures
            (final(self)@, *final(ids), response@) == chat_reply(old(self)@, *old(ids), body@),
    {
        if requests::asks_for_stream(body) {
            return match &self.stream_script {
                Some(script) => MockResponse::stream(script.clone(), "text/event-stream"),
                None => streams::streaming_chat_response(
                    body,
                    self.chat_force_tool_calls,
                    &self.chat_tool_call,
                    ids,
                ),
            };
        }
        if requests::offers_tools(body) {
            let json = answers::research_chat_response(
                body,
                &self.research_tool_rounds,
                self.research_force_tool_calls,
                ids,
            );
            assert(rounds_view(self.research_tool_rounds@) =~= Seq::new(
                self.research_tool_rounds@.len(),
                |k: int|
                    Seq::new(
                        self.research_tool_rounds@[k]@.len(),
                        |i: int| streams::call_view(self.research_tool_rounds@[k]@[i]),
                    ),
            ));
            return MockResponse::with_json(200, json);
        }
        self.answer_plainly(body)
    }

    fn answer_ollama(&mut self, body: &Json, ids: &mut CallIds) -> (response: MockResponse)
        ensures
            (final(self)@, *final(ids), response@) == ollama_reply(old(self)@, *old(ids), body@),
    {
        if requests::asks_for_stream(body) {
            return match &self.stream_script {
                Some(script) => MockResponse::stream(script.clone(), "text/event-stream"),
                None => streams::ollama_stream_response(
                    body,
                    self.chat_force_tool_calls,
                    &self.chat_tool_call,
                    ids,
                ),
            };
        }
        let said = outside::to_lowercase(json::print(body).as_str());
        if text::contains(said.as_str(), "conversation title") {
            return self.answer_title(streams::make_closed_line(DECORATED_TITLE));
        }
        MockResponse::with_json(200, streams::make_closed_line("{}"))
    }

    /// Answers a chat request.
    pub fn respond(&mut self, endpoint: Endpoint, request: &Vec<u8>, ids: &mut CallIds) -> (response:
        MockResponse)
        ensures
            (final(self)@, *final(ids), response@) == answered(
                old(self)@,
                *old(ids),
                endpoint,
                outside::json_in_bytes(request@),
            ),
    {
        let body = json::parse_bytes(request);
        self.respond_to(endpoint, body, ids)
    }

    /// Answers a chat request whose body has been read; `None` where it was not
    /// JSON.
    pub fn respond_to(&mut self, endpoint: Endpoint, body: Option<Json>, ids: &mut CallIds) -> (response:
        MockResponse)
        ensures
            (final(self)@, *final(ids), response@) == answered(
                old(self)@,
                *old(ids),
                endpoint,
                match body {
                    Some(body) => Some(body@),
                    None => None,
                },
            ),
    {
        self.chat_requests = streams::next_number(self.chat_requests);
        let delay = self.chat_delay;
        if let Some(failure) = self.chat_failure {
            return failure.response().held(delay);
        }
        let body = match body {
            Some(body) => body,
            None => {
                return MockResponse::bare(400).held(delay);
            },
        };
        self.record(&body);
        let response = match endpoint {
            Endpoint::Completions => self.answer_chat(&body, ids),
            Endpoint::Ollama => self.answer_ollama(&body, ids),
        };
        response.held(delay)
    }
}

// ==================== Embeddings ====================

/// The texts that are to be embedded, and the model that was asked for.
#[derive(Debug, PartialEq)]
pub struct EmbeddingRequest {
    pub inputs: Vec<String>,
    /// As the request names it; null where it does not.
    pub model: Json,
}

/// The texts of a list. What is no text counts as an empty one.
pub open spec fn input_texts(inputs: Seq<JsonTree>) -> Seq<Seq<char>> {
    Seq::new(
        inputs.len(),
        |i: int|
            match inputs[i].text() {
                Some(text) => text,
                None => Seq::empty(),
            },
    )
}

/// What an embedding request asks for, or the answer that refuses it.
pub open spec fn embedding_asked(state: MockAiState, body: Option<JsonTree>) -> Result<
    (Seq<Seq<char>>, JsonTree),
    ResponseView,
> {
    match state.embedding_failure {
        Some(failure) => Err(failure.served()),
        None => match body {
            None => Err(ResponseView::bare(400)),
            Some(body) => match body.field("input"@) {
                Some(input) => match input.items() {
                    Some(inputs) => Ok(
                        (
                            input_texts(inputs),
                            match body.field("model"@) {
                                Some(model) => model,
                                None => JsonTree::Null,
                            },
                        ),
                    ),
                    None => Err(ResponseView::bare(400)),
                },
                None => Err(ResponseView::bare(400)),
            },
        },
    }
}

fn read_inputs(inputs: &Vec<Json>) -> (texts: Vec<String>)
    ensures
        text::texts(texts@) == input_texts(json::trees(inputs@)),
{
    let mut texts: Vec<String> = Vec::new();
    let mut at: usize = 0;
    while at < inputs.len()
        invariant
            at <= inputs.len(),
            texts@.len() == at,
            forall|i: int|
                0 <= i < at ==> (#[trigger] texts@[i])@ == match json::tree_of(inputs@[i]).text() {
                    Some(text) => text,
                    None => Seq::empty(),
                },
        decreases inputs.len() - at,
    {
        let text = match inputs[at].as_str() {
            Some(text) => text.to_owned(),
            None => String::new(),
        };
        texts.push(text);
        at = at + 1;
    }
    proof {
        json::lemma_trees(inputs@);
        assert(text::texts(texts@) =~= input_texts(json::trees(inputs@)));
    }
    texts
}

impl MockAiServer {
    /// Takes an embedding request: what is to be embedded, or the answer that
    /// refuses it.
    pub fn take_embedding_request(&mut self, request: &Vec<u8>) -> (asked: Result<
        EmbeddingRequest,
        MockResponse,
    >)
        ensures
            final(self)@ == (MockAiState {
                embedding_requests: streams::following(old(self)@.embedding_requests),
                ..old(self)@
            }),
            match asked {
                Ok(asked) => embedding_asked(old(self)@, outside::json_in_bytes(request@)) == Ok::<
                    _,
                    ResponseView,
                >((text::texts(asked.inputs@), asked.model@)),
                Err(response) => embedding_asked(old(self)@, outside::json_in_bytes(request@))
                    == Err::<(Seq<Seq<char>>, JsonTree), _>(response@),
            },
    {
        self.embedding_requests = streams::next_number(self.embedding_requests);
        if let Some(failure) = self.embedding_failure {
            return Err(failure.response());
        }
        let body = match json::parse_bytes(request) {
            Some(body) => body,
            None => {
                return Err(MockResponse::bare(400));
            },
        };
        let inputs = match body.get("input") {
            Some(input) => match input.as_array() {
                Some(inputs) => read_inputs(inputs),
                None => {
                    return Err(MockResponse::bare(400));
                },
            },
            None => {
                return Err(MockResponse::bare(400));
            },
        };
        let model = match body.get("model") {
            Some(model) => model.clone(),
            None => Json::Null,
        };
        Ok(EmbeddingRequest { inputs, model })
    }
}

// ==================== Laws ====================

/// Every chat request is counted, whether it fails or not, and whatever it
/// holds; and every answer is held for as long as the server is told to.
pub proof fn lemma_every_request_counts(
    state: MockAiState,
    ids: CallIds,
    endpoint: Endpoint,
    body: Option<JsonTree>,
)
    ensures
        answered(state, ids, endpoint, body).0.chat_requests == streams::following(
            state.chat_requests,
        ),
        state.chat_delay is Some ==> answered(state, ids, endpoint, body).2.delay_nanos
            == state.chat_delay,
{
}

/// A title request is counted although it fails.
pub proof fn lemma_failed_titles_count(state: MockAiState, title: JsonTree)
    requires
        state.title_failure is Some,
    ensures
        title_reply(state, title).0.title_requests == streams::following(state.title_requests),
        title_reply(state, title).1 == state.title_failure->0.served(),
{
}

/// A request changes nothing about the knobs.
pub proof fn lemma_requests_leave_the_knobs(
    state: MockAiState,
    ids: CallIds,
    endpoint: Endpoint,
    body: Option<JsonTree>,
)
    ensures
        ({
            let after = answered(state, ids, endpoint, body).0;
            after == MockAiState {
                chat_requests: after.chat_requests,
                title_requests: after.title_requests,
                chat_models: after.chat_models,
                chat_bodies: after.chat_bodies,
                ..state
            }
        }),
{
}

/// A scripted stream reaches every streaming request as it stands, on
/// whichever endpoint it arrives.
pub proof fn lemma_scripts_reach_both_endpoints(
    state: MockAiState,
    ids: CallIds,
    endpoint: Endpoint,
    body: JsonTree,
)
    requires
        state.stream_script is Some,
        state.chat_failure is None,
        requests::wants_stream(body),
    ensures
        answered(state, ids, endpoint, Some(body)).2 == ResponseView::stream(
            state.stream_script->0,
            "text/event-stream"@,
        ).held(state.chat_delay),
{
}

/// Every chat request that is read is recorded: its body, and the model that it
/// asks for, behind those that came before. One that fails, or is no JSON, is
/// only counted.
pub proof fn lemma_what_is_read_is_recorded(
    state: MockAiState,
    ids: CallIds,
    endpoint: Endpoint,
    body: JsonTree,
)
    ensures
        state.chat_failure is None ==> answered(state, ids, endpoint, Some(body)).0.chat_bodies
            == state.chat_bodies.push(body),
        state.chat_failure is None ==> answered(state, ids, endpoint, Some(body)).0.chat_models
            == (match body.field("model"@) {
            Some(JsonTree::Text(model)) => state.chat_models.push(model),
            _ => state.chat_models,
        }),
        state.chat_failure is Some ==> answered(state, ids, endpoint, Some(body)).0
            == (MockAiState { chat_requests: streams::following(state.chat_requests), ..state }),
        answered(state, ids, endpoint, None).0 == (MockAiState {
            chat_requests: streams::following(state.chat_requests),
            ..state
        }),
{
}

/// A failure that is set is served to every chat request; else one that is no
/// JSON is refused. Neither takes a number.
pub proof fn lemma_failures_go_before_answers(
    state: MockAiState,
    ids: CallIds,
    endpoint: Endpoint,
    body: Option<JsonTree>,
)
    ensures
        state.chat_failure matches Some(failure) ==> {
            let (_, after, response) = answered(state, ids, endpoint, body);
            &&& after == ids
            &&& response.status == failure.served().status
            &&& response.header == failure.served().header
            &&& response.body == failure.served().body
        },
        state.chat_failure is None ==> {
            let (_, after, response) = answered(state, ids, endpoint, None);
            &&& after == ids
            &&& response.status == 400
            &&& response.header is None
            &&& response.body is Empty
        },
        state.chat_delay is None && (state.chat_failure is Some || body is None) ==> answered(
            state,
            ids,
            endpoint,
            body,
        ).2.delay_nanos is None,
{
}

/// A streaming request gets what the turn answers with, in the dialect of the
/// endpoint.
pub proof fn lemma_a_stream_speaks_the_endpoints_dialect(
    state: MockAiState,
    ids: CallIds,
    body: JsonTree,
)
    requires
        state.chat_failure is None,
        state.stream_script is None,
        requests::wants_stream(body),
    ensures
        ({
            let leg = streams::leg(
                body,
                state.chat_force_tool_calls,
                state.chat_tool_call,
                ids.streamed,
            );
            let (_, after, response) = answered(state, ids, Endpoint::Completions, Some(body));
            let (_, other, lines) = answered(state, ids, Endpoint::Ollama, Some(body));
            &&& response == ResponseView::stream(
                streams::event_stream(streams::chunks_of(leg)),
                "text/event-stream"@,
            ).held(state.chat_delay)
            &&& lines == ResponseView::stream(
                streams::line_stream(streams::lines_of(leg)),
                "application/x-ndjson"@,
            ).held(state.chat_delay)
            &&& after == other
            &&& after.research == ids.research
            &&& after.streamed == streams::number_after(
                body,
                state.chat_force_tool_calls,
                ids.streamed,
            )
        }),
{
}

/// A request that is not streamed but offers tools gets the round of research
/// for its turn, and takes a number for each call of it. It counts as no
/// request for a title, whatever it says.
pub proof fn lemma_tools_without_a_stream_mean_research(
    state: MockAiState,
    ids: CallIds,
    body: JsonTree,
)
    requires
        state.chat_failure is None,
        !requests::wants_stream(body),
        requests::tools_offered(body),
    ensures
        ({
            let round = answers::round_for(
                state.research_tool_rounds,
                requests::tool_rounds(requests::messages(body)),
                state.research_force_tool_calls,
            );
            let (after, numbers, response) = answered(
                state,
                ids,
                Endpoint::Completions,
                Some(body),
            );
            &&& response == ResponseView::with_json(
                200,
                answers::research(round, ids.research),
            ).held(state.chat_delay)
            &&& numbers.streamed == ids.streamed
            &&& numbers.research == answers::numbered(ids.research, round.len())
            &&& after.title_requests == state.title_requests
        }),
{
}

/// A request for a title is counted as one on both endpoints, and gets the
/// decorated title, or the failure that is set for titles.
pub proof fn lemma_titles_are_told_by_their_prompt(
    state: MockAiState,
    ids: CallIds,
    body: JsonTree,
)
    requires
        state.chat_failure is None,
        !requests::wants_stream(body),
        !requests::tools_offered(body),
        text::has_text(outside::lowercase(json::text_of(body)), "conversation title"@),
    ensures
        ({
            let (after, numbers, response) = answered(
                state,
                ids,
                Endpoint::Completions,
                Some(body),
            );
            let (other, _, line) = answered(state, ids, Endpoint::Ollama, Some(body));
            &&& numbers == ids
            &&& after.title_requests == streams::following(state.title_requests)
            &&& other.title_requests == streams::following(state.title_requests)
            &&& state.title_failure matches Some(failure) ==> response == failure.served().held(
                state.chat_delay,
            ) && line == failure.served().held(state.chat_delay)
            &&& state.title_failure is None ==> response == ResponseView::with_json(
                200,
                answers::prose("\"Notes About Pelicans.\""@),
            ).held(state.chat_delay) && line == ResponseView::with_json(
                200,
                streams::closed_line("\"Notes About Pelicans.\""@),
            ).held(state.chat_delay)
        }),
{
}

/// Any other request is told by its prompt and its schema: a long text, which a
/// word in the prompt makes fail or makes slow, or structured data. It counts
/// as no request for a title.
pub proof fn lemma_other_requests_are_told_by_their_prompt(
    state: MockAiState,
    ids: CallIds,
    body: JsonTree,
)
    requires
        state.chat_failure is None,
        state.chat_delay is None,
        !requests::wants_stream(body),
        !requests::tools_offered(body),
        !text::has_text(outside::lowercase(json::text_of(body)), "conversation title"@),
    ensures
        ({
            let said = outside::lowercase(json::text_of(body));
            let long = answers::wire_schema(body) is None && text::has_text(
                said,
                "citations_used:"@,
            );
            let fails = text::has_text(said, "wikifail"@);
            let slow = text::has_text(said, "wikislow"@);
            let (after, numbers, response) = answered(
                state,
                ids,
                Endpoint::Completions,
                Some(body),
            );
            let (other, _, line) = answered(state, ids, Endpoint::Ollama, Some(body));
            &&& numbers == ids
            &&& after.title_requests == state.title_requests
            &&& other.title_requests == state.title_requests
            &&& long && fails ==> response == ResponseView::with_json(
                400,
                responses::error_json("mock wiki generation failure"@),
            )
            &&& long && !fails ==> response == ResponseView::with_json(
                200,
                answers::prose(answers::long_text(body, said)),
            ).held(
                if slow {
                    Some(1_500_000_000u128)
                } else {
                    None
                },
            )
            &&& !long ==> response == ResponseView::with_json(
                200,
                answers::prose(answers::structured(body, said)),
            )
            &&& line == ResponseView::with_json(200, streams::closed_line("{}"@))
        }),
{
}

/// An embedding request is for every text of its input, in order, and for the
/// model that it names. It is refused where a failure is set, or where there is
/// no list of inputs.
pub proof fn lemma_every_input_is_embedded(state: MockAiState, body: JsonTree, inputs: Seq<JsonTree>)
    ensures
        state.embedding_failure matches Some(failure) ==> embedding_asked(state, Some(body)) == Err::<
            (Seq<Seq<char>>, JsonTree),
            ResponseView,
        >(failure.served()),
        state.embedding_failure is None && !(body.field("input"@) matches Some(JsonTree::List(_)))
            ==> (embedding_asked(state, Some(body)) matches Err(response) && response.status == 400
            && response.body is Empty && response.header is None && response.delay_nanos is None),
        state.embedding_failure is None ==> (embedding_asked(state, None) matches Err(response)
            && response.status == 400 && response.body is Empty && response.header is None
            && response.delay_nanos is None),
        state.embedding_failure is None && body.field("input"@) == Some(JsonTree::List(inputs)) ==> (
        embedding_asked(state, Some(body)) matches Ok((texts, model)) && texts.len() == inputs.len()
            && (forall|i: int|
            0 <= i < inputs.len() ==> #[trigger] texts[i] == (match inputs[i] {
                JsonTree::Text(text) => text,
                _ => Seq::<char>::empty(),
            })) && model == (match body.field("model"@) {
            Some(model) => model,
            None => JsonTree::Null,
        })),
{
}


/// On Ollama's endpoint tools make no difference without a stream: a request
/// for a title gets the title, any other an empty object.
pub proof fn lemma_ollama_answers_without_tools(state: MockAiState, ids: CallIds, body: JsonTree)
    requires
        state.chat_failure is None,
        state.chat_delay is None,
        !requests::wants_stream(body),
    ensures
        ({
            let title = text::has_text(
                outside::lowercase(json::text_of(body)),
                "conversation title"@,
            );
            let (after, numbers, response) = answered(state, ids, Endpoint::Ollama, Some(body));
            &&& numbers == ids
            &&& after.title_requests == (if title {
                streams::following(state.title_requests)
            } else {
                state.title_requests
            })
            &&& !title ==> response == ResponseView::with_json(200, streams::closed_line("{}"@))
            &&& title && state.title_failure is None ==> response == ResponseView::with_json(
                200,
                streams::closed_line("\"Notes About Pelicans.\""@),
            )
            &&& title && state.title_failure is Some ==> response
                == state.title_failure->0.served()
        }),
{
}


/// A script is seen round by round and call by call, each by its name and its
/// arguments.
pub proof fn lemma_a_script_is_seen_as_it_is(rounds: Seq<Vec<ScriptedCall>>, k: int, i: int)
    ensures
        rounds_view(rounds).len() == rounds.len(),
        0 <= k < rounds.len() ==> rounds_view(rounds)[k].len() == rounds[k]@.len(),
        0 <= k < rounds.len() && 0 <= i < rounds[k]@.len() ==> rounds_view(rounds)[k][i] == (
            rounds[k]@[i].0@,
            rounds[k]@[i].1@,
        ),
{
}


} // verus!
