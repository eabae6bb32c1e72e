//! Streamed answers: what the model does on a turn, and how each wire format
//! frames it.

use crate::json;
use crate::json::Json;
use crate::json::JsonTree;
use crate::mock_ai::requests;
use crate::mock_ai::responses::MockResponse;
use crate::mock_ai::responses::ResponseView;
use crate::providers::framing;
use crate::providers::framing::Framing;
use crate::providers::framing::StepView;
use crate::text;
use vstd::prelude::*;

verus! {

/// A call of a tool, by its name and arguments.
pub type ScriptedCall = (String, Json);

/// What a scripted call is.
pub open spec fn call_view(call: ScriptedCall) -> (Seq<char>, JsonTree) {
    (call.0@, call.1@)
}

/// What an optional scripted call is.
pub open spec fn optional_call(call: Option<ScriptedCall>) -> Option<(Seq<char>, JsonTree)> {
    match call {
        Some(call) => Some(call_view(call)),
        None => None,
    }
}

/// The numbers that tool calls are told apart by. Conversations that run at the
/// same time must not see the same id, so that every server of a process is to
/// draw from the same ones.
#[derive(Debug, Clone, Copy, PartialEq, Eq, Structural)]
pub struct CallIds {
    /// The number of the next call in a streamed answer.
    pub streamed: usize,
    /// The number of the next call in an answer of the research leg.
    pub research: usize,
}

/// What follows a number that starts over after the greatest one.
pub open spec fn following(n: usize) -> usize {
    if n == usize::MAX {
        0
    } else {
        (n + 1) as usize
    }
}

pub fn next_number(n: usize) -> (next: usize)
    ensures
        next == following(n),
{
    if n == usize::MAX {
        0
    } else {
        n + 1
    }
}

/// The id of the call with number `n` of the tool `name`.
pub open spec fn call_id(name: Seq<char>, n: usize) -> Seq<char> {
    "call_mock_"@ + name + "_"@ + text::decimal(n as nat)
}

pub fn make_id(name: &str, n: usize) -> (id: String)
    ensures
        id@ == call_id(name@, n),
{
    let mut id = String::from_str("call_mock_");
    id.append(name);
    id.append("_");
    text::push_decimal(&mut id, n as u64);
    id
}

/// What a streaming turn answers with, before any wire format is chosen.
/// Shared by every dialect, so that only the framing differs.
#[derive(Debug, PartialEq)]
pub enum StreamLeg {
    /// Prose, in the fragments that a provider should surface one by one.
    Text(Vec<String>),
    /// One tool call. Each dialect encodes the arguments in its own way.
    ToolCall { id: String, name: String, arguments: Json },
}

/// What a streaming turn answers with.
pub enum LegView {
    Text(Seq<Seq<char>>),
    ToolCall { id: Seq<char>, name: Seq<char>, arguments: JsonTree },
}

impl View for StreamLeg {
    type V = LegView;

    open spec fn view(&self) -> LegView {
        match self {
            StreamLeg::Text(fragments) => LegView::Text(text::texts(fragments@)),
            StreamLeg::ToolCall { id, name, arguments } => LegView::ToolCall {
                id: id@,
                name: name@,
                arguments: arguments@,
            },
        }
    }
}

/// The search that is run for a question.
pub open spec fn search_for(question: Seq<char>) -> (Seq<char>, JsonTree) {
    (
        "search_atoms"@,
        JsonTree::Object(
            Map::<Seq<char>, JsonTree>::empty().insert(
                "query"@,
                JsonTree::Text(question),
            ).insert("limit"@, JsonTree::Natural(5)),
        ),
    )
}

/// The call that a turn makes: the scripted one, else a search for what the
/// user said last.
pub open spec fn wanted_call(
    body: JsonTree,
    scripted: Option<(Seq<char>, JsonTree)>,
) -> (Seq<char>, JsonTree) {
    match scripted {
        Some(call) => call,
        None => search_for(
            match requests::last_question(requests::messages(body)) {
                Some(question) => question,
                None => "atomic"@,
            },
        ),
    }
}

/// Whether a turn answers with prose: where there is no tool to call, or where
/// results are in and nothing forces another call.
pub open spec fn wraps_up(body: JsonTree, force: bool) -> bool {
    !requests::tools_offered(body) || (requests::has_tool_results(body) && !force)
}

/// What a turn answers with, where `n` is the number of its call.
pub open spec fn leg(
    body: JsonTree,
    force: bool,
    scripted: Option<(Seq<char>, JsonTree)>,
    n: usize,
) -> LegView {
    if wraps_up(body, force) {
        LegView::Text(
            seq!["Mock assistant reply "@, "grounded in the search results. [1]"@],
        )
    } else {
        let (name, arguments) = wanted_call(body, scripted);
        LegView::ToolCall { id: call_id(name, n), name, arguments }
    }
}

/// The number of the next call after a turn.
pub open spec fn number_after(body: JsonTree, force: bool, n: usize) -> usize {
    if wraps_up(body, force) {
        n
    } else {
        following(n)
    }
}

/// Picks what a streaming turn answers with: a tool call while there is
/// research to do, prose once results are in, or at once where the request
/// offers no tools.
pub fn stream_leg(
    body: &Json,
    force_tool_calls: bool,
    tool_call: &Option<ScriptedCall>,
    ids: &mut CallIds,
) -> (picked: StreamLeg)
    ensures
        picked@ == leg(body@, force_tool_calls, optional_call(*tool_call), old(ids).streamed),
        final(ids).streamed == number_after(body@, force_tool_calls, old(ids).streamed),
        final(ids).research == old(ids).research,
{
    let results = requests::holds_tool_results(body);
    if !requests::offers_tools(body) || (results && !force_tool_calls) {
        let mut fragments: Vec<String> = Vec::new();
        fragments.push(String::from_str("Mock assistant reply "));
        fragments.push(String::from_str("grounded in the search results. [1]"));
        assert(text::texts(fragments@) =~= seq![
            "Mock assistant reply "@,
            "grounded in the search results. [1]"@,
        ]);
        return StreamLeg::Text(fragments);
    }
    let (name, arguments) = match tool_call {
        Some((name, arguments)) => (name.clone(), arguments.clone()),
        None => {
            let question = match requests::latest_user_query(body) {
                Some(question) => question,
                None => String::from_str("atomic"),
            };
            let mut fields: Vec<(String, Json)> = Vec::new();
            json::put(&mut fields, "query", Json::Text(question));
            json::put(&mut fields, "limit", Json::Natural(5));
            (String::from_str("search_atoms"), Json::Object(fields))
        },
    };
    let id = make_id(name.as_str(), ids.streamed);
    ids.streamed = next_number(ids.streamed);
    StreamLeg::ToolCall { id, name, arguments }
}

// ==================== Server-sent events ====================

/// A chunk of a streamed completion.
pub open spec fn chunk(delta: JsonTree, finish_reason: JsonTree) -> JsonTree {
    JsonTree::Object(
        Map::<Seq<char>, JsonTree>::empty().insert(
            "choices"@,
            json::one(
                JsonTree::Object(
                    Map::<Seq<char>, JsonTree>::empty().insert("delta"@, delta).insert(
                        "finish_reason"@,
                        finish_reason,
                    ),
                ),
            ),
        ),
    )
}

fn make_chunk(delta: Json, finish_reason: Json) -> (json: Json)
    ensures
        json@ == chunk(delta@, finish_reason@),
{
    let mut choice: Vec<(String, Json)> = Vec::new();
    json::put(&mut choice, "delta", delta);
    json::put(&mut choice, "finish_reason", finish_reason);
    let mut fields: Vec<(String, Json)> = Vec::new();
    json::put(&mut fields, "choices", json::single(Json::Object(choice)));
    Json::Object(fields)
}

/// A function and its arguments, as a tool call holds them.
pub open spec fn function_json(name: Seq<char>, arguments: JsonTree) -> JsonTree {
    JsonTree::Object(
        Map::<Seq<char>, JsonTree>::empty().insert("name"@, JsonTree::Text(name)).insert(
            "arguments"@,
            arguments,
        ),
    )
}

pub fn function_body(name: &str, arguments: Json) -> (json: Json)
    ensures
        json@ == function_json(name@, arguments@),
{
    let mut fields: Vec<(String, Json)> = Vec::new();
    json::put(&mut fields, "name", json::string(name));
    json::put(&mut fields, "arguments", arguments);
    Json::Object(fields)
}

/// A fragment of prose as a delta.
pub open spec fn content_delta(fragment: Seq<char>) -> JsonTree {
    JsonTree::Object(
        Map::<Seq<char>, JsonTree>::empty().insert("content"@, JsonTree::Text(fragment)),
    )
}

/// A tool call as a delta. The arguments are a string that holds JSON.
pub open spec fn call_delta(id: Seq<char>, name: Seq<char>, arguments: JsonTree) -> JsonTree {
    JsonTree::Object(
        Map::<Seq<char>, JsonTree>::empty().insert(
            "tool_calls"@,
            json::one(
                JsonTree::Object(
                    Map::<Seq<char>, JsonTree>::empty().insert(
                        "index"@,
                        JsonTree::Natural(0),
                    ).insert("id"@, JsonTree::Text(id)).insert(
                        "type"@,
                        JsonTree::Text("function"@),
                    ).insert(
                        "function"@,
                        function_json(name, JsonTree::Text(json::text_of(arguments))),
                    ),
                ),
            ),
        ),
    )
}

fn make_call_delta(id: &str, name: &str, arguments: &Json) -> (json: Json)
    ensures
        json@ == call_delta(id@, name@, arguments@),
{
    let mut call: Vec<(String, Json)> = Vec::new();
    json::put(&mut call, "index", Json::Natural(0));
    json::put(&mut call, "id", json::string(id));
    json::put(&mut call, "type", json::string("function"));
    json::put(&mut call, "function", function_body(name, Json::Text(json::print(arguments))));
    let mut delta: Vec<(String, Json)> = Vec::new();
    json::put(&mut delta, "tool_calls", json::single(Json::Object(call)));
    Json::Object(delta)
}

/// The chunks of a streamed answer, but for the one that closes it.
pub open spec fn open_chunks(leg: LegView) -> Seq<JsonTree> {
    match leg {
        LegView::Text(fragments) => Seq::new(
            fragments.len(),
            |i: int| chunk(content_delta(fragments[i]), JsonTree::Null),
        ),
        LegView::ToolCall { id, name, arguments } => seq![
            chunk(call_delta(id, name, arguments), JsonTree::Null),
        ],
    }
}

/// Why a streamed answer ended.
pub open spec fn closing_reason(leg: LegView) -> Seq<char> {
    match leg {
        LegView::Text(_) => "stop"@,
        LegView::ToolCall { .. } => "tool_calls"@,
    }
}

/// The chunks of a streamed answer.
pub open spec fn chunks_of(leg: LegView) -> Seq<JsonTree> {
    open_chunks(leg).push(
        chunk(
            JsonTree::Object(Map::<Seq<char>, JsonTree>::empty()),
            JsonTree::Text(closing_reason(leg)),
        ),
    )
}

/// Chunks as `data: ` events, without the sentinel.
pub open spec fn events(chunks: Seq<JsonTree>) -> Seq<char>
    decreases chunks.len(),
{
    if chunks.len() == 0 {
        Seq::empty()
    } else {
        events(chunks.drop_last()) + "data: "@ + json::text_of(chunks.last()) + "\n\n"@
    }
}

/// Chunks as a stream of server-sent events.
pub open spec fn event_stream(chunks: Seq<JsonTree>) -> Seq<char> {
    events(chunks) + "data: [DONE]\n\n"@
}

/// The payloads that a stream of these values holds.
pub open spec fn payloads(values: Seq<JsonTree>) -> Seq<StepView> {
    Seq::new(values.len(), |i: int| StepView::Payload(json::text_of(values[i])))
}

proof fn lemma_event_is_read(before: Seq<char>, payload: Seq<char>)
    requires
        json::solid_line(payload),
        payload != "[DONE]"@,
        framing::all_steps(Framing::Events, before).1.len() == 0,
    ensures
        framing::all_steps(Framing::Events, before + "data: "@ + payload + "\n\n"@) == (
            framing::all_steps(Framing::Events, before).0.push(StepView::Payload(payload)),
            Seq::<char>::empty(),
        ),
{
    reveal_strlit("data: ");
    reveal_strlit("\n");
    reveal_strlit("\n\n");
    reveal_strlit("data: [DONE]");
    reveal_strlit("[DONE]");
    let line = "data: "@ + payload;
    let early = framing::all_steps(Framing::Events, before).0;
    assert(line.last() == payload.last());
    assert forall|i: int| 0 <= i < line.len() implies #[trigger] line[i] != '\n' by {
        if i >= 6 {
            assert(line[i] == payload[i - 6]);
        }
    }
    text::lemma_trimmed_solid(line);
    assert(line.skip(6) =~= payload);
    if line == "data: [DONE]"@ {
        assert("data: [DONE]"@.skip(6) =~= "[DONE]"@);
    }
    assert(line.subrange(0, 6) =~= "data: "@);
    framing::lemma_a_line_is_read(Framing::Events, line);
    framing::lemma_a_line_is_read(Framing::Events, Seq::<char>::empty());
    assert(text::trimmed(Seq::<char>::empty()) =~= Seq::<char>::empty());
    let first = line + "\n"@;
    let second = Seq::<char>::empty() + "\n"@;
    framing::lemma_chunks_do_not_matter(Framing::Events, first, second);
    assert(Seq::<char>::empty() + second =~= second);
    assert(seq![StepView::Payload(payload)] + Seq::<StepView>::empty() =~= seq![
        StepView::Payload(payload),
    ]);
    framing::lemma_chunks_do_not_matter(Framing::Events, before, first + second);
    let left = framing::all_steps(Framing::Events, before).1;
    assert(left + (first + second) =~= first + second);
    assert(before + (first + second) =~= before + "data: "@ + payload + "\n\n"@);
    assert(early + seq![StepView::Payload(payload)] =~= early.push(StepView::Payload(payload)));
}

proof fn lemma_sentinel_is_read(before: Seq<char>)
    requires
        framing::all_steps(Framing::Events, before).1.len() == 0,
    ensures
        framing::all_steps(Framing::Events, before + "data: [DONE]\n\n"@) == (
            framing::all_steps(Framing::Events, before).0.push(StepView::End),
            Seq::<char>::empty(),
        ),
{
    reveal_strlit("\n");
    reveal_strlit("data: [DONE]");
    reveal_strlit("data: [DONE]\n\n");
    let line = "data: [DONE]"@;
    let early = framing::all_steps(Framing::Events, before).0;
    text::lemma_trimmed_solid(line);
    framing::lemma_a_line_is_read(Framing::Events, line);
    framing::lemma_a_line_is_read(Framing::Events, Seq::<char>::empty());
    assert(text::trimmed(Seq::<char>::empty()) =~= Seq::<char>::empty());
    let first = line + "\n"@;
    let second = Seq::<char>::empty() + "\n"@;
    framing::lemma_chunks_do_not_matter(Framing::Events, first, second);
    assert(Seq::<char>::empty() + second =~= second);
    assert(seq![StepView::End] + Seq::<StepView>::empty() =~= seq![StepView::End]);
    framing::lemma_chunks_do_not_matter(Framing::Events, before, first + second);
    let left = framing::all_steps(Framing::Events, before).1;
    assert(left + (first + second) =~= first + second);
    assert(before + (first + second) =~= before + "data: [DONE]\n\n"@);
    assert(early + seq![StepView::End] =~= early.push(StepView::End));
}

/// Writes chunks as a stream of server-sent events. A provider that reads the
/// stream gets the chunks, one by one, and then its end.
pub fn sse_concat(chunks: &Vec<Json>) -> (text: String)
    ensures
        text@ == event_stream(json::trees(chunks@)),
        framing::all_steps(Framing::Events, text@) == (
            payloads(json::trees(chunks@)).push(StepView::End),
            Seq::<char>::empty(),
        ),
{
    let ghost all = json::trees(chunks@);
    proof {
        json::lemma_trees(chunks@);
        assert(all.take(0) =~= Seq::empty());
    }
    let mut out = String::new();
    proof {
        assert(text::until(out@, text::feed()) == 0);
        assert(payloads(all.take(0)) =~= Seq::empty());
    }
    let mut at: usize = 0;
    while at < chunks.len()
        invariant
            at <= chunks.len(),
            all.len() == chunks@.len(),
            forall|i: int| 0 <= i < chunks@.len() ==> #[trigger] all[i] == json::tree_of(chunks@[i]),
            out@ == events(all.take(at as int)),
            framing::all_steps(Framing::Events, out@) == (
                payloads(all.take(at as int)),
                Seq::<char>::empty(),
            ),
        decreases chunks.len() - at,
    {
        let printed = json::print(&chunks[at]);
        proof {
            assert(all.take(at + 1).drop_last() =~= all.take(at as int));
            assert(all.take(at + 1).last() == chunks@[at as int]@);
            lemma_event_is_read(out@, printed@);
            assert(payloads(all.take(at as int)).push(StepView::Payload(printed@)) =~= payloads(
                all.take(at + 1),
            ));
        }
        out.append("data: ");
        out.append(printed.as_str());
        out.append("\n\n");
        at = at + 1;
    }
    assert(all.take(at as int) =~= all);
    proof {
        lemma_sentinel_is_read(out@);
    }
    out.append("data: [DONE]\n\n");
    out
}

/// A streamed completion for a turn.
pub fn streaming_chat_response(
    body: &Json,
    force_tool_calls: bool,
    tool_call: &Option<ScriptedCall>,
    ids: &mut CallIds,
) -> (response: MockResponse)
    ensures
        response@ == ResponseView::stream(
            event_stream(
                chunks_of(
                    leg(body@, force_tool_calls, optional_call(*tool_call), old(ids).streamed),
                ),
            ),
            "text/event-stream"@,
        ),
        final(ids).streamed == number_after(body@, force_tool_calls, old(ids).streamed),
        final(ids).research == old(ids).research,
{
    let picked = stream_leg(body, force_tool_calls, tool_call, ids);
    let mut chunks: Vec<Json> = Vec::new();
    let reason = match &picked {
        StreamLeg::Text(fragments) => {
            let mut at: usize = 0;
            while at < fragments.len()
                invariant
                    at <= fragments.len(),
                    chunks@.len() == at,
                    forall|i: int|
                        0 <= i < at ==> json::tree_of(#[trigger] chunks@[i]) == chunk(
                            content_delta(fragments@[i]@),
                            JsonTree::Null,
                        ),
                decreases fragments.len() - at,
            {
                let mut delta: Vec<(String, Json)> = Vec::new();
                json::put(&mut delta, "content", json::string(fragments[at].as_str()));
                chunks.push(make_chunk(Json::Object(delta), Json::Null));
                at = at + 1;
            }
            "stop"
        },
        StreamLeg::ToolCall { id, name, arguments } => {
            chunks.push(
                make_chunk(make_call_delta(id.as_str(), name.as_str(), arguments), Json::Null),
            );
            "tool_calls"
        },
    };
    chunks.push(make_chunk(Json::Object(Vec::new()), json::string(reason)));
    proof {
        json::lemma_trees(chunks@);
        assert(json::trees(chunks@) =~= chunks_of(picked@));
    }
    MockResponse::stream(sse_concat(&chunks), "text/event-stream")
}

// ==================== One object per line ====================

/// A message of the model, with the calls it makes where it makes any.
pub open spec fn message_json(content: Seq<char>, calls: Option<JsonTree>) -> JsonTree {
    let fields = Map::<Seq<char>, JsonTree>::empty().insert(
        "role"@,
        JsonTree::Text("assistant"@),
    ).insert("content"@, JsonTree::Text(content));
    JsonTree::Object(
        match calls {
            Some(calls) => fields.insert("tool_calls"@, calls),
            None => fields,
        },
    )
}

pub fn message_body(content: &str, calls: Option<Json>) -> (json: Json)
    ensures
        json@ == message_json(
            content@,
            match calls {
                Some(calls) => Some(calls@),
                None => None,
            },
        ),
{
    let mut fields: Vec<(String, Json)> = Vec::new();
    json::put(&mut fields, "role", json::string("assistant"));
    json::put(&mut fields, "content", json::string(content));
    if let Some(calls) = calls {
        json::put(&mut fields, "tool_calls", calls);
    }
    Json::Object(fields)
}

/// A line of a stream that goes on.
pub open spec fn open_line(message: JsonTree) -> JsonTree {
    JsonTree::Object(
        Map::<Seq<char>, JsonTree>::empty().insert(
            "model"@,
            JsonTree::Text("mock-ollama"@),
        ).insert("message"@, message).insert("done"@, JsonTree::Bool(false)),
    )
}

fn make_open_line(message: Json) -> (json: Json)
    ensures
        json@ == open_line(message@),
{
    let mut fields: Vec<(String, Json)> = Vec::new();
    json::put(&mut fields, "model", json::string("mock-ollama"));
    json::put(&mut fields, "message", message);
    json::put(&mut fields, "done", Json::Bool(false));
    Json::Object(fields)
}

/// An answer that is complete: the last line of a stream, or all of an answer
/// that is not streamed.
pub open spec fn closed_line(content: Seq<char>) -> JsonTree {
    JsonTree::Object(
        Map::<Seq<char>, JsonTree>::empty().insert(
            "model"@,
            JsonTree::Text("mock-ollama"@),
        ).insert("message"@, message_json(content, None)).insert(
            "done"@,
            JsonTree::Bool(true),
        ).insert("done_reason"@, JsonTree::Text("stop"@)),
    )
}

pub fn make_closed_line(content: &str) -> (json: Json)
    ensures
        json@ == closed_line(content@),
{
    let mut fields: Vec<(String, Json)> = Vec::new();
    json::put(&mut fields, "model", json::string("mock-ollama"));
    json::put(&mut fields, "message", message_body(content, None));
    json::put(&mut fields, "done", Json::Bool(true));
    json::put(&mut fields, "done_reason", json::string("stop"));
    Json::Object(fields)
}

/// The lines of a streamed answer. Calls carry no id, and their arguments are
/// an object.
pub open spec fn lines_of(leg: LegView) -> Seq<JsonTree> {
    (match leg {
        LegView::Text(fragments) => Seq::new(
            fragments.len(),
            |i: int| open_line(message_json(fragments[i], None)),
        ),
        LegView::ToolCall { id, name, arguments } => {
            let call = JsonTree::Object(
                Map::<Seq<char>, JsonTree>::empty().insert(
                    "function"@,
                    function_json(name, arguments),
                ),
            );
            seq![open_line(message_json(Seq::empty(), Some(json::one(call))))]
        },
    }).push(closed_line(Seq::empty()))
}

/// Objects, one per line.
pub open spec fn line_stream(lines: Seq<JsonTree>) -> Seq<char>
    decreases lines.len(),
{
    if lines.len() == 0 {
        Seq::empty()
    } else {
        line_stream(lines.drop_last()) + json::text_of(lines.last()) + "\n"@
    }
}

proof fn lemma_line_is_read(before: Seq<char>, payload: Seq<char>)
    requires
        json::solid_line(payload),
        framing::all_steps(Framing::Lines, before).1.len() == 0,
    ensures
        framing::all_steps(Framing::Lines, before + payload + "\n"@) == (
            framing::all_steps(Framing::Lines, before).0.push(StepView::Payload(payload)),
            Seq::<char>::empty(),
        ),
{
    let early = framing::all_steps(Framing::Lines, before).0;
    let left = framing::all_steps(Framing::Lines, before).1;
    text::lemma_trimmed_solid(payload);
    framing::lemma_a_line_is_read(Framing::Lines, payload);
    framing::lemma_chunks_do_not_matter(Framing::Lines, before, payload + "\n"@);
    assert(left + (payload + "\n"@) =~= payload + "\n"@);
    assert(before + (payload + "\n"@) =~= before + payload + "\n"@);
    assert(early + seq![StepView::Payload(payload)] =~= early.push(StepView::Payload(payload)));
}

/// Writes objects one per line. A provider that reads the stream gets them one
/// by one.
pub fn concat_lines(lines: &Vec<Json>) -> (text: String)
    ensures
        text@ == line_stream(json::trees(lines@)),
        framing::all_steps(Framing::Lines, text@) == (
            payloads(json::trees(lines@)),
            Seq::<char>::empty(),
        ),
{
    let ghost all = json::trees(lines@);
    proof {
        json::lemma_trees(lines@);
        assert(all.take(0) =~= Seq::empty());
    }
    let mut out = String::new();
    proof {
        assert(text::until(out@, text::feed()) == 0);
        assert(payloads(all.take(0)) =~= Seq::empty());
    }
    let mut at: usize = 0;
    while at < lines.len()
        invariant
            at <= lines.len(),
            all.len() == lines@.len(),
            forall|i: int| 0 <= i < lines@.len() ==> #[trigger] all[i] == json::tree_of(lines@[i]),
            out@ == line_stream(all.take(at as int)),
            framing::all_steps(Framing::Lines, out@) == (
                payloads(all.take(at as int)),
                Seq::<char>::empty(),
            ),
        decreases lines.len() - at,
    {
        let printed = json::print(&lines[at]);
        proof {
            assert(all.take(at + 1).drop_last() =~= all.take(at as int));
            assert(all.take(at + 1).last() == lines@[at as int]@);
            lemma_line_is_read(out@, printed@);
            assert(payloads(all.take(at as int)).push(StepView::Payload(printed@)) =~= payloads(
                all.take(at + 1),
            ));
        }
        out.append(printed.as_str());
        out.append("\n");
        at = at + 1;
    }
    assert(all.take(at as int) =~= all);
    out
}

/// A streamed answer of one object per line. Nothing follows the one that says
/// it is done.
pub fn ollama_stream_response(
    body: &Json,
    force_tool_calls: bool,
    tool_call: &Option<ScriptedCall>,
    ids: &mut CallIds,
) -> (response: MockResponse)
    ensures
        response@ == ResponseView::stream(
            line_stream(
                lines_of(
                    leg(body@, force_tool_calls, optional_call(*tool_call), old(ids).streamed),
                ),
            ),
            "application/x-ndjson"@,
        ),
        final(ids).streamed == number_after(body@, force_tool_calls, old(ids).streamed),
        final(ids).research == old(ids).research,
{
    let picked = stream_leg(body, force_tool_calls, tool_call, ids);
    let ghost picked_view = picked@;
    let mut lines: Vec<Json> = Vec::new();
    proof {
        reveal_strlit("");
        assert(""@ =~= Seq::<char>::empty());
    }
    match picked {
        StreamLeg::Text(fragments) => {
            let mut at: usize = 0;
            while at < fragments.len()
                invariant
                    at <= fragments.len(),
                    lines@.len() == at,
                    forall|i: int|
                        0 <= i < at ==> json::tree_of(#[trigger] lines@[i]) == open_line(
                            message_json(fragments@[i]@, None),
                        ),
                decreases fragments.len() - at,
            {
                lines.push(make_open_line(message_body(fragments[at].as_str(), None)));
                at = at + 1;
            }
        },
        StreamLeg::ToolCall { id: _, name, arguments } => {
            let mut call: Vec<(String, Json)> = Vec::new();
            json::put(&mut call, "function", function_body(name.as_str(), arguments));
            lines.push(make_open_line(message_body("", Some(json::single(Json::Object(call))))));
        },
    }
    lines.push(make_closed_line(""));
    proof {
        json::lemma_trees(lines@);
        assert(json::trees(lines@) =~= lines_of(picked_view));
    }
    MockResponse::stream(concat_lines(&lines), "application/x-ndjson")
}

// ==================== Laws ====================

/// A request that offers no tools is answered with prose, whatever the knobs
/// say: there is no call to make.
pub proof fn lemma_no_tools_no_calls(
    body: JsonTree,
    force: bool,
    scripted: Option<(Seq<char>, JsonTree)>,
    n: usize,
)
    requires
        !requests::tools_offered(body),
    ensures
        leg(body, force, scripted, n) is Text,
        number_after(body, force, n) == n,
{
}

/// While calls are forced, a request that offers tools never gets prose.
pub proof fn lemma_forced_calls_go_on(
    body: JsonTree,
    scripted: Option<(Seq<char>, JsonTree)>,
    n: usize,
)
    requires
        requests::tools_offered(body),
    ensures
        leg(body, true, scripted, n) is ToolCall,
{
}

proof fn lemma_decimal_apart(a: nat, b: nat)
    requires
        a != b,
    ensures
        text::decimal(a) != text::decimal(b),
{
    text::lemma_decimal_reads_back(a);
    text::lemma_decimal_reads_back(b);
}

/// Calls with different numbers have different ids, whatever tools they call.
pub proof fn lemma_call_ids_differ(a: Seq<char>, n: usize, b: Seq<char>, m: usize)
    requires
        n != m,
    ensures
        call_id(a, n) != call_id(b, m),
{
    let x = text::decimal(n as nat);
    let y = text::decimal(m as nat);
    lemma_decimal_apart(n as nat, m as nat);
    text::lemma_decimal_reads_back(n as nat);
    text::lemma_decimal_reads_back(m as nat);
    reveal_strlit("_");
    if call_id(a, n) == call_id(b, m) {
        let id = call_id(a, n);
        let start = id.len() - x.len();
        let other = id.len() - y.len();
        assert(id.skip(start) =~= x);
        assert(id.skip(other) =~= y);
        assert(id[start - 1] == '_');
        assert(id[other - 1] == '_');
        if x.len() < y.len() {
            assert(id[start - 1] == y[start - 1 - other]);
            assert(text::is_digit(y[start - 1 - other]));
        } else if y.len() < x.len() {
            assert(id[other - 1] == x[other - 1 - start]);
            assert(text::is_digit(x[other - 1 - start]));
        }
    }
}

/// Numbers are counted up one by one, and start over after the greatest.
pub proof fn lemma_numbers_follow_one_another(n: usize)
    ensures
        n < usize::MAX ==> following(n) == n + 1,
        n == usize::MAX ==> following(n) == 0,
{
}

proof fn lemma_keys_differ()
    ensures
        "query"@ != "limit"@,
        "delta"@ != "finish_reason"@,
        "name"@ != "arguments"@,
        "index"@ != "id"@,
        "index"@ != "type"@,
        "index"@ != "function"@,
        "id"@ != "type"@,
        "id"@ != "function"@,
        "type"@ != "function"@,
        "role"@ != "content"@,
        "role"@ != "tool_calls"@,
        "content"@ != "tool_calls"@,
        "model"@ != "message"@,
        "model"@ != "done"@,
        "model"@ != "done_reason"@,
        "message"@ != "done"@,
        "message"@ != "done_reason"@,
        "done"@ != "done_reason"@,
{
    reveal_strlit("query");
    reveal_strlit("limit");
    reveal_strlit("delta");
    reveal_strlit("finish_reason");
    reveal_strlit("name");
    reveal_strlit("arguments");
    reveal_strlit("index");
    reveal_strlit("id");
    reveal_strlit("type");
    reveal_strlit("function");
    reveal_strlit("role");
    reveal_strlit("content");
    reveal_strlit("tool_calls");
    reveal_strlit("model");
    reveal_strlit("message");
    reveal_strlit("done");
    reveal_strlit("done_reason");
    assert("query"@[0] != "limit"@[0]);
    assert("delta"@.len() == 5 && "finish_reason"@.len() == 13);
    assert("name"@.len() == 4 && "arguments"@.len() == 9);
    assert("index"@.len() == 5 && "id"@.len() == 2 && "type"@.len() == 4 && "function"@.len() == 8);
    assert("role"@.len() == 4 && "content"@.len() == 7 && "tool_calls"@.len() == 10);
    assert("model"@.len() == 5 && "message"@.len() == 7 && "done"@.len() == 4 && "done_reason"@.len()
        == 11);
}

/// A turn that has research to do makes the scripted call with its arguments,
/// or searches for what the user said last; its id holds the tool's name and
/// the number of the call, and the next call gets the next number. A turn
/// without research to do answers with prose and takes no number.
pub proof fn lemma_a_turn_calls_or_wraps_up(
    body: JsonTree,
    force: bool,
    scripted: Option<(Seq<char>, JsonTree)>,
    n: usize,
)
    ensures
        ({
            let prose = !requests::tools_offered(body) || (requests::has_tool_results(body)
                && !force);
            let answer = leg(body, force, scripted, n);
            &&& prose ==> answer == LegView::Text(
                seq!["Mock assistant reply "@, "grounded in the search results. [1]"@],
            )
            &&& prose ==> number_after(body, force, n) == n
            &&& !prose ==> number_after(body, force, n) == following(n)
            &&& !prose ==> (answer matches LegView::ToolCall { id, name, arguments } && id
                == "call_mock_"@ + name + "_"@ + text::decimal(n as nat) && (match scripted {
                Some((tool, given)) => name == tool && arguments == given,
                None => name == "search_atoms"@ && arguments.field("limit"@) == Some(
                    JsonTree::Natural(5),
                ) && arguments.text_field("query"@) == Some(
                    match requests::last_question(requests::messages(body)) {
                        Some(question) => question,
                        None => "atomic"@,
                    },
                ),
            }))
        }),
{
    lemma_keys_differ();
}

/// What a chunk of a streamed completion says: the first choice's `delta`, and
/// why it ended.
pub open spec fn says(value: JsonTree, delta: JsonTree, reason: JsonTree) -> bool {
    value.field("choices"@) matches Some(JsonTree::List(choices)) && choices.len() == 1
        && choices[0].field("delta"@) == Some(delta) && choices[0].field("finish_reason"@) == Some(
        reason,
    )
}

/// A streamed completion tells every fragment of prose in a chunk of its own,
/// in order, and says at last that it stopped.
pub proof fn lemma_prose_is_streamed_by_fragments(fragments: Seq<Seq<char>>)
    ensures
        chunks_of(LegView::Text(fragments)).len() == fragments.len() + 1,
        forall|i: int|
            0 <= i < fragments.len() ==> exists|delta: JsonTree|
                says(
                    #[trigger] chunks_of(LegView::Text(fragments))[i],
                    delta,
                    JsonTree::Null,
                ) && #[trigger] delta.text_field("content"@) == Some(fragments[i]),
        exists|delta: JsonTree|
            says(
                chunks_of(LegView::Text(fragments)).last(),
                delta,
                JsonTree::Text("stop"@),
            ) && #[trigger] delta.text_field("content"@) is None,
{
    lemma_keys_differ();
    let chunks = chunks_of(LegView::Text(fragments));
    assert forall|i: int| 0 <= i < fragments.len() implies exists|delta: JsonTree|
        says(#[trigger] chunks[i], delta, JsonTree::Null) && #[trigger] delta.text_field(
            "content"@,
        ) == Some(fragments[i]) by {
        let delta = content_delta(fragments[i]);
        assert(chunks[i] == chunk(delta, JsonTree::Null));
        assert(delta.text_field("content"@) == Some(fragments[i]));
    }
    let empty = JsonTree::Object(Map::<Seq<char>, JsonTree>::empty());
    assert(chunks.last() == chunk(empty, JsonTree::Text("stop"@)));
    assert(empty.text_field("content"@) is None);
}

/// A streamed completion tells a call in one chunk, under its id and its name,
/// with its arguments as JSON text, and says at last that it ended in a call.
pub proof fn lemma_a_call_is_streamed_whole(id: Seq<char>, name: Seq<char>, arguments: JsonTree)
    ensures
        ({
            let chunks = chunks_of(LegView::ToolCall { id, name, arguments });
            &&& chunks.len() == 2
            &&& exists|delta: JsonTree|
                says(chunks[0], delta, JsonTree::Null) && (#[trigger] delta.field("tool_calls"@)
                    matches Some(JsonTree::List(calls)) && calls.len() == 1 && calls[0].field(
                    "index"@,
                ) == Some(JsonTree::Natural(0)) && calls[0].text_field("id"@) == Some(id)
                    && calls[0].text_field("type"@) == Some("function"@) && (calls[0].field(
                    "function"@,
                ) matches Some(function) && function.text_field("name"@) == Some(name)
                    && function.text_field("arguments"@) == Some(json::text_of(arguments))))
            &&& exists|delta: JsonTree|
                says(chunks[1], delta, JsonTree::Text("tool_calls"@)) && #[trigger] delta.field(
                    "tool_calls"@,
                ) is None
        }),
{
    lemma_keys_differ();
    let chunks = chunks_of(LegView::ToolCall { id, name, arguments });
    let delta = call_delta(id, name, arguments);
    assert(chunks[0] == chunk(delta, JsonTree::Null));
    assert(says(chunks[0], delta, JsonTree::Null));
    assert(delta.field("tool_calls"@) is Some);
    let empty = JsonTree::Object(Map::<Seq<char>, JsonTree>::empty());
    assert(chunks[1] == chunk(empty, JsonTree::Text("tool_calls"@)));
    assert(says(chunks[1], empty, JsonTree::Text("tool_calls"@)));
    assert(empty.field("tool_calls"@) is None);
}

/// A message of the model says its content, and holds calls only where some
/// are made.
pub proof fn lemma_a_message_says_its_content(content: Seq<char>, calls: JsonTree)
    ensures
        message_json(content, None).text_field("role"@) == Some("assistant"@),
        message_json(content, None).text_field("content"@) == Some(content),
        message_json(content, None).field("tool_calls"@) is None,
        message_json(content, Some(calls)).text_field("role"@) == Some("assistant"@),
        message_json(content, Some(calls)).text_field("content"@) == Some(content),
        message_json(content, Some(calls)).field("tool_calls"@) == Some(calls),
{
    lemma_keys_differ();
}

/// A stream of lines tells every fragment of prose on a line of its own, in
/// order, each of them but the last saying that more follows.
pub proof fn lemma_prose_is_told_by_lines(fragments: Seq<Seq<char>>)
    ensures
        ({
            let lines = lines_of(LegView::Text(fragments));
            &&& lines.len() == fragments.len() + 1
            &&& forall|i: int|
                0 <= i < fragments.len() ==> (#[trigger] lines[i]).field("done"@) == Some(
                    JsonTree::Bool(false),
                ) && lines[i].field("message"@) == Some(message_json(fragments[i], None))
            &&& lines.last().field("done"@) == Some(JsonTree::Bool(true))
            &&& lines.last().text_field("done_reason"@) == Some("stop"@)
            &&& lines.last().field("message"@) == Some(message_json(Seq::empty(), None))
        }),
{
    lemma_keys_differ();
}

/// A stream of lines tells a call on one line, by its name and with its
/// arguments as they are, and says on the next that it is done.
pub proof fn lemma_a_call_is_told_on_a_line(id: Seq<char>, name: Seq<char>, arguments: JsonTree)
    ensures
        ({
            let lines = lines_of(LegView::ToolCall { id, name, arguments });
            &&& lines.len() == 2
            &&& lines[0].field("done"@) == Some(JsonTree::Bool(false))
            &&& lines[0].field("message"@) matches Some(message) && (message.field("tool_calls"@)
                matches Some(JsonTree::List(calls)) && calls.len() == 1 && (calls[0].field(
                "function"@,
            ) matches Some(function) && function.text_field("name"@) == Some(name)
                && function.field("arguments"@) == Some(arguments)))
            &&& lines[1].field("done"@) == Some(JsonTree::Bool(true))
            &&& lines[1].field("message"@) == Some(message_json(Seq::empty(), None))
        }),
{
    lemma_keys_differ();
    let lines = lines_of(LegView::ToolCall { id, name, arguments });
    let message = lines[0].field("message"@)->0;
    assert(message.field("tool_calls"@) is Some);
}

/// An answer that is complete says its content and that it is done.
pub proof fn lemma_a_closed_line_is_complete(content: Seq<char>)
    ensures
        closed_line(content).field("message"@) == Some(message_json(content, None)),
        closed_line(content).field("done"@) == Some(JsonTree::Bool(true)),
        closed_line(content).text_field("done_reason"@) == Some("stop"@),
        closed_line(content).text_field("model"@) == Some("mock-ollama"@),
{
    lemma_keys_differ();
}

/// A stream is its values, one behind the other: each as an event, with the
/// sentinel behind them all, or each on a line.
pub proof fn lemma_streams_go_value_by_value(values: Seq<JsonTree>, value: JsonTree)
    ensures
        events(values.push(value)) == events(values) + "data: "@ + json::text_of(value) + "\n\n"@,
        event_stream(values) == events(values) + "data: [DONE]\n\n"@,
        line_stream(values.push(value)) == line_stream(values) + json::text_of(value) + "\n"@,
        events(Seq::empty()).len() == 0,
        line_stream(Seq::empty()).len() == 0,
        payloads(values).len() == values.len(),
        forall|i: int|
            0 <= i < values.len() ==> #[trigger] payloads(values)[i] == StepView::Payload(
                json::text_of(values[i]),
            ),
{
    assert(values.push(value).drop_last() =~= values);
}


} // verus!
