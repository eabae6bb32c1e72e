//! Answers that are not streamed: research, titles, long-form texts and
//! structured data, told apart by what the request says.

use crate::json;
use crate::json::Json;
use crate::json::JsonTree;
use crate::mock_ai::requests;
use crate::mock_ai::streams;
use crate::mock_ai::streams::CallIds;
use crate::mock_ai::streams::ScriptedCall;
use crate::text;
use vstd::prelude::*;

verus! {

/// A completion.
pub open spec fn completion(message: JsonTree, finish_reason: Seq<char>) -> JsonTree {
    JsonTree::Object(
        Map::<Seq<char>, JsonTree>::empty().insert("id"@, JsonTree::Text("mock-cmpl"@)).insert(
            "object"@,
            JsonTree::Text("chat.completion"@),
        ).insert(
            "choices"@,
            json::one(
                JsonTree::Object(
                    Map::<Seq<char>, JsonTree>::empty().insert(
                        "index"@,
                        JsonTree::Natural(0),
                    ).insert("message"@, message).insert(
                        "finish_reason"@,
                        JsonTree::Text(finish_reason),
                    ),
                ),
            ),
        ),
    )
}

fn make_completion(message: Json, finish_reason: &str) -> (json: Json)
    ensures
        json@ == completion(message@, finish_reason@),
{
    let mut choice: Vec<(String, Json)> = Vec::new();
    json::put(&mut choice, "index", Json::Natural(0));
    json::put(&mut choice, "message", message);
    json::put(&mut choice, "finish_reason", json::string(finish_reason));
    let mut fields: Vec<(String, Json)> = Vec::new();
    json::put(&mut fields, "id", json::string("mock-cmpl"));
    json::put(&mut fields, "object", json::string("chat.completion"));
    json::put(&mut fields, "choices", json::single(Json::Object(choice)));
    Json::Object(fields)
}

/// A completion that is prose.
pub open spec fn prose(content: Seq<char>) -> JsonTree {
    completion(streams::message_json(content, None), "stop"@)
}

pub fn prose_completion(content: &str) -> (json: Json)
    ensures
        json@ == prose(content@),
{
    make_completion(streams::message_body(content, None), "stop")
}

// ==================== Research ====================

/// The round that says there is enough.
pub open spec fn done_round() -> Seq<(Seq<char>, JsonTree)> {
    seq![("done"@, JsonTree::Object(Map::<Seq<char>, JsonTree>::empty()))]
}

/// What the research leg calls on a turn: what the script says; past its end
/// the last round again where that is forced, else `done`.
pub open spec fn round_for(
    rounds: Seq<Seq<(Seq<char>, JsonTree)>>,
    turn: nat,
    force: bool,
) -> Seq<(Seq<char>, JsonTree)> {
    if turn < rounds.len() {
        rounds[turn as int]
    } else if force && rounds.len() > 0 {
        rounds.last()
    } else {
        done_round()
    }
}

/// The number that stands `k` after `n`.
pub open spec fn numbered(n: usize, k: nat) -> usize
    decreases k,
{
    if k == 0 {
        n
    } else {
        streams::following(numbered(n, (k - 1) as nat))
    }
}

/// A tool call of a completion. The arguments are a string that holds JSON.
pub open spec fn call_json(call: (Seq<char>, JsonTree), n: usize) -> JsonTree {
    JsonTree::Object(
        Map::<Seq<char>, JsonTree>::empty().insert(
            "id"@,
            JsonTree::Text(streams::call_id(call.0, n)),
        ).insert("type"@, JsonTree::Text("function"@)).insert(
            "function"@,
            streams::function_json(call.0, JsonTree::Text(json::text_of(call.1))),
        ),
    )
}

fn make_call(name: &str, arguments: &Json, n: usize) -> (json: Json)
    ensures
        json@ == call_json((name@, arguments@), n),
{
    let mut fields: Vec<(String, Json)> = Vec::new();
    json::put(&mut fields, "id", Json::Text(streams::make_id(name, n)));
    json::put(&mut fields, "type", json::string("function"));
    json::put(
        &mut fields,
        "function",
        streams::function_body(name, Json::Text(json::print(arguments))),
    );
    Json::Object(fields)
}

/// A completion that makes a round of calls, numbered from `n` on.
pub open spec fn research(round: Seq<(Seq<char>, JsonTree)>, n: usize) -> JsonTree {
    completion(
        streams::message_json(
            Seq::empty(),
            Some(
                JsonTree::List(
                    Seq::new(round.len(), |i: int| call_json(round[i], numbered(n, i as nat))),
                ),
            ),
        ),
        "tool_calls"@,
    )
}

/// Writes the completion of a round.
fn write_round(round: &Vec<ScriptedCall>, ids: &mut CallIds) -> (json: Json)
    ensures
        json@ == research(
            Seq::new(round@.len(), |i: int| streams::call_view(round@[i])),
            old(ids).research,
        ),
        final(ids).research == numbered(old(ids).research, round@.len()),
        final(ids).streamed == old(ids).streamed,
{
    let ghost first = ids.research;
    let mut calls: Vec<Json> = Vec::new();
    let mut at: usize = 0;
    while at < round.len()
        invariant
            at <= round.len(),
            calls@.len() == at,
            ids.research == numbered(first, at as nat),
            ids.streamed == old(ids).streamed,
            forall|i: int|
                0 <= i < at ==> json::tree_of(#[trigger] calls@[i]) == call_json(
                    streams::call_view(round@[i]),
                    numbered(first, i as nat),
                ),
        decreases round.len() - at,
    {
        calls.push(make_call(round[at].0.as_str(), &round[at].1, ids.research));
        ids.research = streams::next_number(ids.research);
        at = at + 1;
    }
    proof {
        reveal_strlit("");
        assert(""@ =~= Seq::<char>::empty());
        json::lemma_trees(calls@);
        let round = Seq::new(round@.len(), |i: int| streams::call_view(round@[i]));
        assert(json::trees(calls@) =~= Seq::new(
            round.len(),
            |i: int| call_json(round[i], numbered(first, i as nat)),
        ));
    }
    make_completion(streams::message_body("", Some(Json::List(calls))), "tool_calls")
}

/// A turn of a research loop. Which turn the model is on shows in the messages
/// of its own that called tools.
pub fn research_chat_response(
    body: &Json,
    rounds: &Vec<Vec<ScriptedCall>>,
    force: bool,
    ids: &mut CallIds,
) -> (json: Json)
    ensures
        ({
            let script = Seq::new(
                rounds@.len(),
                |k: int| Seq::new(rounds@[k]@.len(), |i: int| streams::call_view(rounds@[k]@[i])),
            );
            let turn = requests::tool_rounds(requests::messages(body@));
            let round = round_for(script, turn, force);
            &&& json@ == research(round, old(ids).research)
            &&& final(ids).research == numbered(old(ids).research, round.len())
        }),
        final(ids).streamed == old(ids).streamed,
{
    let turn: usize = requests::completed_tool_rounds(body);
    if turn < rounds.len() {
        return write_round(&rounds[turn], ids);
    }
    if force && rounds.len() > 0 {
        return write_round(&rounds[rounds.len() - 1], ids);
    }
    let mut done: Vec<ScriptedCall> = Vec::new();
    done.push((String::from_str("done"), Json::Object(Vec::new())));
    assert(Seq::new(done@.len(), |i: int| streams::call_view(done@[i])) =~= done_round());
    write_round(&done, ids)
}

// ==================== Long-form texts ====================

/// Whether more than one numbered source stands in a prompt.
pub open spec fn has_second_source(body: JsonTree) -> bool {
    exists|n: i32| n >= 2 && #[trigger] requests::names_source(requests::messages(body), n)
}

/// The text that a long-form request gets. A wiki article has a section, for
/// later updates to hold on to, and cites up to two of its sources.
pub open spec fn long_text(body: JsonTree, said: Seq<char>) -> Seq<char> {
    if !text::has_text(said, "wiki article"@) {
        "# Mock Finding\n\nA deterministic mock finding body. [1]\n\nCITATIONS_USED: 1"@
    } else if has_second_source(body) {
        "# Mock Wiki\n\n## Overview\n\nThis is a deterministic mock article body. [1] [2]\n\nCITATIONS_USED: 1, 2"@
    } else {
        "# Mock Wiki\n\n## Overview\n\nThis is a deterministic mock article body. [1]\n\nCITATIONS_USED: 1"@
    }
}

pub fn write_long_text(body: &Json, said: &str) -> (content: String)
    ensures
        content@ == long_text(body@, said@),
{
    if !text::contains(said, "wiki article") {
        return String::from_str(
            "# Mock Finding\n\nA deterministic mock finding body. [1]\n\nCITATIONS_USED: 1",
        );
    }
    if requests::count_numbered_sources(body) >= 2 {
        String::from_str(
            "# Mock Wiki\n\n## Overview\n\nThis is a deterministic mock article body. [1] [2]\n\nCITATIONS_USED: 1, 2",
        )
    } else {
        String::from_str(
            "# Mock Wiki\n\n## Overview\n\nThis is a deterministic mock article body. [1]\n\nCITATIONS_USED: 1",
        )
    }
}

// ==================== Structured data ====================

/// The name of the schema that a request puts on the wire.
pub open spec fn wire_schema(body: JsonTree) -> Option<Seq<char>> {
    match body.field("response_format"@) {
        Some(format) => match format.field("json_schema"@) {
            Some(schema) => schema.text_field("name"@),
            None => None,
        },
        None => None,
    }
}

pub fn schema_on_wire(body: &Json) -> (name: Option<String>)
    ensures
        text::optional(name) == wire_schema(body@),
{
    let format = match body.get("response_format") {
        Some(format) => format,
        None => {
            return None;
        },
    };
    match format.get("json_schema") {
        Some(schema) => match schema.get_str("name") {
            Some(name) => Some(name.to_owned()),
            None => None,
        },
        None => None,
    }
}

/// The schema that a request is about: the one on the wire, else the one whose
/// properties the prompt names. Schemas overlap, so the order matters.
pub open spec fn schema_asked(body: JsonTree, said: Seq<char>) -> Seq<char> {
    match wire_schema(body) {
        Some(name) => name,
        None => if text::has_text(said, "after_heading"@) {
            "wiki_update_section_ops"@
        } else if text::has_text(said, "winner_name"@) {
            "merge_result"@
        } else if text::has_text(said, "tags_to_remove"@) {
            "consolidation_result"@
        } else if text::has_text(said, "parent_name"@) {
            "extraction_result"@
        } else {
            Seq::empty()
        },
    }
}

fn find_schema(body: &Json, said: &str) -> (name: String)
    ensures
        name@ == schema_asked(body@, said@),
{
    if let Some(name) = schema_on_wire(body) {
        return name;
    }
    if text::contains(said, "after_heading") {
        String::from_str("wiki_update_section_ops")
    } else if text::contains(said, "winner_name") {
        String::from_str("merge_result")
    } else if text::contains(said, "tags_to_remove") {
        String::from_str("consolidation_result")
    } else if text::contains(said, "parent_name") {
        String::from_str("extraction_result")
    } else {
        String::new()
    }
}

/// An object of one field.
spec fn holding(key: Seq<char>, value: JsonTree) -> JsonTree {
    JsonTree::Object(Map::<Seq<char>, JsonTree>::empty().insert(key, value))
}

fn make_holding(key: &str, value: Json) -> (json: Json)
    ensures
        json@ == holding(key@, value@),
{
    let mut fields: Vec<(String, Json)> = Vec::new();
    json::put(&mut fields, key, value);
    Json::Object(fields)
}

/// The tag that a text gets.
pub open spec fn topic(said: Seq<char>) -> Seq<char> {
    if text::has_text(said, "biology"@) {
        "Biology"@
    } else if text::has_text(said, "cooking"@) || text::has_text(said, "pasta"@) {
        "Cooking"@
    } else {
        "Physics"@
    }
}

/// The tags that a text gets.
pub open spec fn extraction(said: Seq<char>) -> JsonTree {
    JsonTree::Object(
        Map::<Seq<char>, JsonTree>::empty().insert(
            "tags"@,
            json::one(
                JsonTree::Object(
                    Map::<Seq<char>, JsonTree>::empty().insert(
                        "name"@,
                        JsonTree::Text(topic(said)),
                    ).insert("parent_name"@, JsonTree::Text("Topics"@)),
                ),
            ),
        ),
    )
}

fn make_extraction(said: &str) -> (json: Json)
    ensures
        json@ == extraction(said@),
{
    let name = if text::contains(said, "biology") {
        "Biology"
    } else if text::contains(said, "cooking") || text::contains(said, "pasta") {
        "Cooking"
    } else {
        "Physics"
    };
    let mut tag: Vec<(String, Json)> = Vec::new();
    json::put(&mut tag, "name", json::string(name));
    json::put(&mut tag, "parent_name", json::string("Topics"));
    make_holding("tags", json::single(Json::Object(tag)))
}

/// The merges that a list of tags gets: the conventional pair of tests where
/// both are in it, else none.
pub open spec fn merges(said: Seq<char>) -> JsonTree {
    JsonTree::Object(
        Map::<Seq<char>, JsonTree>::empty().insert(
            "merges"@,
            if text::has_text(said, "mockwinner"@) && text::has_text(said, "mockloser"@) {
                json::one(
                    JsonTree::Object(
                        Map::<Seq<char>, JsonTree>::empty().insert(
                            "winner_name"@,
                            JsonTree::Text("MockWinner"@),
                        ).insert("loser_name"@, JsonTree::Text("MockLoser"@)).insert(
                            "reason"@,
                            JsonTree::Text("Deterministic mock merge for the compaction test."@),
                        ),
                    ),
                )
            } else {
                JsonTree::List(Seq::empty())
            },
        ),
    )
}

fn make_merges(said: &str) -> (json: Json)
    ensures
        json@ == merges(said@),
{
    if text::contains(said, "mockwinner") && text::contains(said, "mockloser") {
        let mut merge: Vec<(String, Json)> = Vec::new();
        json::put(&mut merge, "winner_name", json::string("MockWinner"));
        json::put(&mut merge, "loser_name", json::string("MockLoser"));
        json::put(
            &mut merge,
            "reason",
            json::string("Deterministic mock merge for the compaction test."),
        );
        make_holding("merges", json::single(Json::Object(merge)))
    } else {
        make_holding("merges", Json::List(Vec::new()))
    }
}

/// The number that an update cites.
pub open spec fn updated_source(body: JsonTree) -> i32 {
    match requests::first_new_source(requests::messages(body)) {
        Some(n) => n,
        None => 2,
    }
}

/// The operations that a wiki update gets: one that adds to the section every
/// mock article has, and cites the first new source.
pub open spec fn section_operations(body: JsonTree) -> JsonTree {
    let n = updated_source(body) as int;
    JsonTree::Object(
        Map::<Seq<char>, JsonTree>::empty().insert(
            "operations"@,
            json::one(
                JsonTree::Object(
                    Map::<Seq<char>, JsonTree>::empty().insert(
                        "op"@,
                        JsonTree::Text("AppendToSection"@),
                    ).insert("heading"@, JsonTree::Text("Overview"@)).insert(
                        "after_heading"@,
                        JsonTree::Text(Seq::empty()),
                    ).insert(
                        "content"@,
                        JsonTree::Text(
                            "Additional mock context referencing the new source. ["@
                                + text::signed_decimal(n) + "]"@,
                        ),
                    ),
                ),
            ),
        ).insert("citations_used"@, json::one(json::integer(n))),
    )
}

fn make_section_operations(body: &Json) -> (json: Json)
    ensures
        json@ == section_operations(body@),
{
    let n: i32 = match requests::first_new_source_index(body) {
        Some(n) => n,
        None => 2,
    };
    let mut content = String::from_str("Additional mock context referencing the new source. [");
    text::push_signed(&mut content, n as i64);
    content.append("]");
    let mut operation: Vec<(String, Json)> = Vec::new();
    json::put(&mut operation, "op", json::string("AppendToSection"));
    json::put(&mut operation, "heading", json::string("Overview"));
    json::put(&mut operation, "after_heading", Json::Text(String::new()));
    json::put(&mut operation, "content", Json::Text(content));
    let mut fields: Vec<(String, Json)> = Vec::new();
    json::put(&mut fields, "operations", json::single(Json::Object(operation)));
    json::put(&mut fields, "citations_used", json::single(json::integer_json(n)));
    Json::Object(fields)
}

/// What a request for structured data gets, as JSON text. A schema that is not
/// known gets an empty object.
pub open spec fn structured(body: JsonTree, said: Seq<char>) -> Seq<char> {
    let schema = schema_asked(body, said);
    if schema == "extraction_result"@ {
        json::text_of(extraction(said))
    } else if schema == "merge_result"@ {
        json::text_of(merges(said))
    } else if schema == "wiki_update_section_ops"@ {
        json::text_of(section_operations(body))
    } else {
        "{}"@
    }
}

pub fn write_structured(body: &Json, said: &str) -> (content: String)
    ensures
        content@ == structured(body@, said@),
{
    let schema = find_schema(body, said);
    if text::same_text(schema.as_str(), "extraction_result") {
        json::print(&make_extraction(said))
    } else if text::same_text(schema.as_str(), "merge_result") {
        json::print(&make_merges(said))
    } else if text::same_text(schema.as_str(), "wiki_update_section_ops") {
        json::print(&make_section_operations(body))
    } else {
        String::from_str("{}")
    }
}

// ==================== Laws ====================

/// Without a script the research leg says at once that there is enough,
/// whatever the knobs say: there is nothing to repeat.
pub proof fn lemma_no_script_no_research(turn: nat, force: bool)
    ensures
        round_for(Seq::empty(), turn, force) == done_round(),
{
}

/// A script is served turn by turn, and followed by `done` unless that is
/// forced to stay away.
pub proof fn lemma_script_is_served_in_order(
    rounds: Seq<Seq<(Seq<char>, JsonTree)>>,
    turn: nat,
    force: bool,
)
    ensures
        turn < rounds.len() ==> round_for(rounds, turn, force) == rounds[turn as int],
        turn >= rounds.len() && !force ==> round_for(rounds, turn, force) == done_round(),
        turn >= rounds.len() > 0 && force ==> round_for(rounds, turn, force) == rounds.last(),
{
}

/// The calls of a round have numbers of their own, until the numbers start
/// over.
pub proof fn lemma_round_numbers_differ(n: usize, i: nat, k: nat)
    requires
        i < k,
        n + k <= usize::MAX,
    ensures
        numbered(n, i) != numbered(n, k),
        numbered(n, k) == n + k,
    decreases k,
{
    if k > 0 {
        lemma_numbers_count_up(n, i);
        lemma_numbers_count_up(n, k);
    }
}

proof fn lemma_numbers_count_up(n: usize, k: nat)
    requires
        n + k <= usize::MAX,
    ensures
        numbered(n, k) == n + k,
    decreases k,
{
    if k > 0 {
        lemma_numbers_count_up(n, (k - 1) as nat);
    }
}

/// Past the greatest number the numbers of a round start over.
pub proof fn lemma_numbers_start_over(n: usize, k: nat)
    ensures
        numbered(n, 0) == n,
        numbered(n, k) < usize::MAX ==> numbered(n, k + 1) == numbered(n, k) + 1,
        numbered(n, k) == usize::MAX ==> numbered(n, k + 1) == 0,
{
}

proof fn lemma_keys_differ()
    ensures
        "id"@ != "object"@,
        "id"@ != "choices"@,
        "object"@ != "choices"@,
        "index"@ != "message"@,
        "index"@ != "finish_reason"@,
        "message"@ != "finish_reason"@,
        "id"@ != "type"@,
        "id"@ != "function"@,
        "type"@ != "function"@,
        "name"@ != "arguments"@,
        "name"@ != "parent_name"@,
        "winner_name"@ != "loser_name"@,
        "winner_name"@ != "reason"@,
        "loser_name"@ != "reason"@,
        "op"@ != "heading"@,
        "op"@ != "after_heading"@,
        "op"@ != "content"@,
        "heading"@ != "after_heading"@,
        "heading"@ != "content"@,
        "after_heading"@ != "content"@,
        "operations"@ != "citations_used"@,
        "extraction_result"@ != "merge_result"@,
        "extraction_result"@ != "wiki_update_section_ops"@,
        "merge_result"@ != "wiki_update_section_ops"@,
        "consolidation_result"@ != "extraction_result"@,
        "consolidation_result"@ != "merge_result"@,
        "consolidation_result"@ != "wiki_update_section_ops"@,
{
    reveal_strlit("id");
    reveal_strlit("object");
    reveal_strlit("choices");
    reveal_strlit("index");
    reveal_strlit("message");
    reveal_strlit("finish_reason");
    reveal_strlit("type");
    reveal_strlit("function");
    reveal_strlit("name");
    reveal_strlit("arguments");
    reveal_strlit("parent_name");
    reveal_strlit("winner_name");
    reveal_strlit("loser_name");
    reveal_strlit("reason");
    reveal_strlit("op");
    reveal_strlit("heading");
    reveal_strlit("after_heading");
    reveal_strlit("content");
    reveal_strlit("operations");
    reveal_strlit("citations_used");
    reveal_strlit("extraction_result");
    reveal_strlit("merge_result");
    reveal_strlit("wiki_update_section_ops");
    reveal_strlit("consolidation_result");
    assert("id"@.len() == 2 && "object"@.len() == 6 && "choices"@.len() == 7);
    assert("index"@.len() == 5 && "message"@.len() == 7 && "finish_reason"@.len() == 13);
    assert("type"@.len() == 4 && "function"@.len() == 8);
    assert("name"@.len() == 4 && "arguments"@.len() == 9 && "parent_name"@.len() == 11);
    assert("winner_name"@.len() == 11 && "loser_name"@.len() == 10 && "reason"@.len() == 6);
    assert("op"@.len() == 2 && "heading"@.len() == 7 && "after_heading"@.len() == 13
        && "content"@.len() == 7);
    assert("heading"@[0] != "content"@[0]);
    assert("operations"@.len() == 10 && "citations_used"@.len() == 14);
    assert("extraction_result"@.len() == 17 && "merge_result"@.len() == 12
        && "wiki_update_section_ops"@.len() == 23 && "consolidation_result"@.len() == 20);
}

/// Whether a completion says `message` and ended for `reason`.
pub open spec fn completes(answer: JsonTree, message: JsonTree, reason: Seq<char>) -> bool {
    answer.field("choices"@) matches Some(JsonTree::List(choices)) && choices.len() == 1
        && choices[0].field("index"@) == Some(JsonTree::Natural(0)) && choices[0].field("message"@)
        == Some(message) && choices[0].text_field("finish_reason"@) == Some(reason)
}

/// A completion that is prose says the prose, and stops.
pub proof fn lemma_prose_is_said(content: Seq<char>)
    ensures
        completes(prose(content), streams::message_json(content, None), "stop"@),
        prose(content).text_field("id"@) == Some("mock-cmpl"@),
        prose(content).text_field("object"@) == Some("chat.completion"@),
{
    lemma_keys_differ();
}

/// A round of research makes every call of the round, in order: by its name,
/// with its arguments as JSON text, and under an id with a number of its own.
pub proof fn lemma_a_round_makes_its_calls(round: Seq<(Seq<char>, JsonTree)>, n: usize)
    requires
        n + round.len() <= usize::MAX,
    ensures
        ({
            let calls = Seq::new(round.len(), |i: int| call_json(round[i], (n + i) as usize));
            &&& completes(
                research(round, n),
                streams::message_json(Seq::empty(), Some(JsonTree::List(calls))),
                "tool_calls"@,
            )
            &&& forall|i: int|
                0 <= i < round.len() ==> {
                    &&& (#[trigger] calls[i]).text_field("id"@) == Some(
                        "call_mock_"@ + round[i].0 + "_"@ + text::decimal((n + i) as nat),
                    )
                    &&& calls[i].text_field("type"@) == Some("function"@)
                    &&& calls[i].field("function"@) matches Some(function) && function.text_field(
                        "name"@,
                    ) == Some(round[i].0) && function.text_field("arguments"@) == Some(
                        json::text_of(round[i].1),
                    )
                }
        }),
{
    lemma_keys_differ();
    let calls = Seq::new(round.len(), |i: int| call_json(round[i], (n + i) as usize));
    let made = Seq::new(round.len(), |i: int| call_json(round[i], numbered(n, i as nat)));
    assert forall|i: int| 0 <= i < round.len() implies #[trigger] made[i] == calls[i] by {
        lemma_numbers_count_up(n, i as nat);
    }
    assert(made =~= calls);
}

/// The round that ends the research calls `done`, and nothing else.
pub proof fn lemma_done_is_one_call()
    ensures
        done_round().len() == 1,
        done_round()[0].0 == "done"@,
        done_round()[0].1 == JsonTree::Object(Map::<Seq<char>, JsonTree>::empty()),
{
}

/// A long text is a wiki article where one is asked for, and a finding else. An
/// article cites a second source where the prompt numbers one, and then says
/// so; everything cites the first.
pub proof fn lemma_a_long_text_fits_its_prompt(body: JsonTree, said: Seq<char>, n: i32)
    ensures
        !text::has_text(said, "wiki article"@) ==> long_text(body, said)
            == "# Mock Finding\n\nA deterministic mock finding body. [1]\n\nCITATIONS_USED: 1"@,
        text::has_text(said, "wiki article"@) && n >= 2 && requests::names_source(
            requests::messages(body),
            n,
        ) ==> long_text(body, said)
            == "# Mock Wiki\n\n## Overview\n\nThis is a deterministic mock article body. [1] [2]\n\nCITATIONS_USED: 1, 2"@,
        text::has_text(said, "wiki article"@) && (forall|k: i32|
            k >= 2 ==> !#[trigger] requests::names_source(requests::messages(body), k))
            ==> long_text(body, said)
            == "# Mock Wiki\n\n## Overview\n\nThis is a deterministic mock article body. [1]\n\nCITATIONS_USED: 1"@,
{
}

/// The schema is the one that the request names on the wire, whatever its
/// prompt says; else the first of those whose properties the prompt names.
pub proof fn lemma_the_schema_on_the_wire_goes_first(body: JsonTree, said: Seq<char>, name: Seq<char>)
    ensures
        (body.field("response_format"@) matches Some(format) && (format.field("json_schema"@)
            matches Some(schema) && schema.field("name"@) == Some(JsonTree::Text(name))))
            ==> schema_asked(body, said) == name && wire_schema(body) == Some(name),
        body.field("response_format"@) is None ==> wire_schema(body) is None,
        wire_schema(body) is None ==> {
            let ops = text::has_text(said, "after_heading"@);
            let merge = text::has_text(said, "winner_name"@);
            let removal = text::has_text(said, "tags_to_remove"@);
            let tags = text::has_text(said, "parent_name"@);
            let schema = schema_asked(body, said);
            &&& ops ==> schema == "wiki_update_section_ops"@
            &&& !ops && merge ==> schema == "merge_result"@
            &&& !ops && !merge && removal ==> schema == "consolidation_result"@
            &&& !ops && !merge && !removal && tags ==> schema == "extraction_result"@
            &&& !ops && !merge && !removal && !tags ==> schema.len() == 0
        },
{
}

/// Each schema is answered with data of its own kind, as JSON text; one that is
/// not known, with an empty object.
pub proof fn lemma_every_schema_gets_its_data(body: JsonTree, said: Seq<char>)
    ensures
        schema_asked(body, said) == "extraction_result"@ ==> structured(body, said)
            == json::text_of(extraction(said)),
        schema_asked(body, said) == "merge_result"@ ==> structured(body, said) == json::text_of(
            merges(said),
        ),
        schema_asked(body, said) == "wiki_update_section_ops"@ ==> structured(body, said)
            == json::text_of(section_operations(body)),
        schema_asked(body, said) == "consolidation_result"@ ==> structured(body, said) == "{}"@,
        schema_asked(body, said).len() == 0 ==> structured(body, said) == "{}"@,
{
    lemma_keys_differ();
    reveal_strlit("extraction_result");
    reveal_strlit("merge_result");
    reveal_strlit("wiki_update_section_ops");
}

/// A text gets one tag, under `Topics`, by the topic that its words tell.
pub proof fn lemma_a_text_is_tagged_by_its_topic(said: Seq<char>)
    ensures
        extraction(said).field("tags"@) matches Some(JsonTree::List(tags)) && tags.len() == 1
            && tags[0].text_field("parent_name"@) == Some("Topics"@) && tags[0].text_field("name"@)
            == Some(
            if text::has_text(said, "biology"@) {
                "Biology"@
            } else if text::has_text(said, "cooking"@) || text::has_text(said, "pasta"@) {
                "Cooking"@
            } else {
                "Physics"@
            },
        ),
{
    lemma_keys_differ();
}

/// Tags are merged where both of the conventional pair are there, the loser
/// into the winner; else nothing is merged.
pub proof fn lemma_only_the_pair_is_merged(said: Seq<char>)
    ensures
        merges(said).field("merges"@) matches Some(JsonTree::List(list)) && (if text::has_text(
            said,
            "mockwinner"@,
        ) && text::has_text(said, "mockloser"@) {
            list.len() == 1 && list[0].text_field("winner_name"@) == Some("MockWinner"@)
                && list[0].text_field("loser_name"@) == Some("MockLoser"@) && list[0].text_field(
                "reason"@,
            ) == Some("Deterministic mock merge for the compaction test."@)
        } else {
            list.len() == 0
        }),
{
    lemma_keys_differ();
}

/// A wiki update adds to the overview and cites the number that the prompt
/// gives to its first new source, in what it adds and in what it says it cites.
pub proof fn lemma_an_update_cites_the_new_source(body: JsonTree, n: i32)
    requires
        requests::first_new_source(requests::messages(body)) == Some(n) || (
        requests::first_new_source(requests::messages(body)) is None && n == 2),
    ensures
        section_operations(body).field("operations"@) matches Some(JsonTree::List(operations))
            && operations.len() == 1 && operations[0].text_field("op"@) == Some(
            "AppendToSection"@,
        ) && operations[0].text_field("heading"@) == Some("Overview"@) && operations[0].text_field(
            "after_heading"@,
        ) == Some(Seq::<char>::empty()) && operations[0].text_field("content"@) == Some(
            "Additional mock context referencing the new source. ["@ + text::signed_decimal(
                n as int,
            ) + "]"@,
        ),
        section_operations(body).field("citations_used"@) matches Some(JsonTree::List(cited))
            && cited.len() == 1 && cited[0].signed() == Some(n as i64),
{
    lemma_keys_differ();
}


} // verus!
