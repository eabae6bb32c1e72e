//! What a request to a chat endpoint says.

use crate::json;
use crate::json::Json;
use crate::json::JsonTree;
use crate::text;
use vstd::prelude::*;

verus! {

/// The messages of a request.
pub open spec fn messages(body: JsonTree) -> Seq<JsonTree> {
    match body.field("messages"@) {
        Some(messages) => match messages.items() {
            Some(messages) => messages,
            None => Seq::empty(),
        },
        None => Seq::empty(),
    }
}

/// Whether a field holds a list with something in it.
pub open spec fn filled(value: JsonTree, key: Seq<char>) -> bool {
    match value.field(key) {
        Some(list) => match list.items() {
            Some(items) => items.len() > 0,
            None => false,
        },
        None => false,
    }
}

/// Whether a message comes from `role`.
pub open spec fn comes_from(message: JsonTree, role: Seq<char>) -> bool {
    message.text_field("role"@) == Some(role)
}

/// Whether a request offers the model tools.
pub open spec fn tools_offered(body: JsonTree) -> bool {
    filled(body, "tools"@)
}

/// Whether a request holds what a tool returned.
pub open spec fn has_tool_results(body: JsonTree) -> bool {
    exists|i: int|
        0 <= i < messages(body).len() && comes_from(#[trigger] messages(body)[i], "tool"@)
}

/// Whether a request asks for a stream.
pub open spec fn wants_stream(body: JsonTree) -> bool {
    match body.field("stream"@) {
        Some(value) => value.truth() == Some(true),
        None => false,
    }
}

/// The items of the list that a field holds.
fn list_in<'a>(value: &'a Json, key: &str) -> (items: Option<&'a Vec<Json>>)
    ensures
        match items {
            Some(items) => value@.field(key@) matches Some(list) && list.items() == Some(
                json::trees(items@),
            ),
            None => match value@.field(key@) {
                Some(list) => list.items() is None,
                None => true,
            },
        },
{
    match value.get(key) {
        Some(list) => list.as_array(),
        None => None,
    }
}

fn is_filled(value: &Json, key: &str) -> (yes: bool)
    ensures
        yes == filled(value@, key@),
{
    match list_in(value, key) {
        Some(items) => {
            proof {
                json::lemma_trees(items@);
            }
            items.len() > 0
        },
        None => false,
    }
}

fn is_from(message: &Json, role: &str) -> (yes: bool)
    ensures
        yes == comes_from(message@, role@),
{
    match message.get_str("role") {
        Some(found) => text::same_text(found, role),
        None => false,
    }
}

pub fn offers_tools(body: &Json) -> (yes: bool)
    ensures
        yes == tools_offered(body@),
{
    is_filled(body, "tools")
}

pub fn asks_for_stream(body: &Json) -> (yes: bool)
    ensures
        yes == wants_stream(body@),
{
    match body.get("stream") {
        Some(value) => value.as_bool() == Some(true),
        None => false,
    }
}

pub fn holds_tool_results(body: &Json) -> (yes: bool)
    ensures
        yes == has_tool_results(body@),
{
    let list = match list_in(body, "messages") {
        Some(list) => list,
        None => {
            return false;
        },
    };
    proof {
        json::lemma_trees(list@);
    }
    let mut at: usize = 0;
    while at < list.len()
        invariant
            at <= list.len(),
            messages(body@).len() == list@.len(),
            forall|i: int|
                0 <= i < list@.len() ==> #[trigger] messages(body@)[i] == json::tree_of(list@[i]),
            forall|i: int| 0 <= i < at ==> !comes_from(#[trigger] messages(body@)[i], "tool"@),
        decreases list.len() - at,
    {
        let hit = is_from(&list[at], "tool");
        assert(messages(body@)[at as int] == list@[at as int]@);
        if hit {
            return true;
        }
        at = at + 1;
    }
    false
}

/// Whether a message is a turn of the model that called tools.
pub open spec fn called_tools(message: JsonTree) -> bool {
    comes_from(message, "assistant"@) && filled(message, "tool_calls"@)
}

/// The turns of the model, of some messages, that called tools.
pub open spec fn tool_rounds(messages: Seq<JsonTree>) -> nat {
    messages.filter(|message: JsonTree| called_tools(message)).len()
}

proof fn lemma_tool_rounds_push(messages: Seq<JsonTree>)
    requires
        messages.len() > 0,
    ensures
        tool_rounds(messages) == tool_rounds(messages.drop_last()) + if called_tools(
            messages.last(),
        ) {
            1nat
        } else {
            0nat
        },
{
    reveal(Seq::filter);
    assert(messages.drop_last().push(messages.last()) =~= messages);
}

/// Model turns already spent on tools: the index of the round that is asked
/// for now.
pub fn completed_tool_rounds(body: &Json) -> (turn: usize)
    ensures
        turn == tool_rounds(messages(body@)),
{
    let list = match list_in(body, "messages") {
        Some(list) => list,
        None => {
            reveal(Seq::filter);
            return 0;
        },
    };
    let ghost all = messages(body@);
    proof {
        json::lemma_trees(list@);
        reveal(Seq::filter);
        assert(all.take(0) =~= Seq::empty());
    }
    let mut turn: usize = 0;
    let mut at: usize = 0;
    while at < list.len()
        invariant
            turn <= at <= list.len(),
            all.len() == list@.len(),
            forall|i: int| 0 <= i < list@.len() ==> #[trigger] all[i] == json::tree_of(list@[i]),
            turn == tool_rounds(all.take(at as int)),
        decreases list.len() - at,
    {
        proof {
            lemma_tool_rounds_push(all.take(at + 1));
            assert(all.take(at + 1).drop_last() =~= all.take(at as int));
            assert(all.take(at + 1).last() == list@[at as int]@);
        }
        if is_from(&list[at], "assistant") && is_filled(&list[at], "tool_calls") {
            turn = turn + 1;
        }
        at = at + 1;
    }
    assert(all.take(at as int) =~= all);
    turn
}

/// What the user said last, of some messages.
pub open spec fn last_question(messages: Seq<JsonTree>) -> Option<Seq<char>>
    decreases messages.len(),
{
    if messages.len() == 0 {
        None
    } else if comes_from(messages.last(), "user"@) {
        messages.last().text_field("content"@)
    } else {
        last_question(messages.drop_last())
    }
}

/// What the user said last.
pub fn latest_user_query(body: &Json) -> (query: Option<String>)
    ensures
        text::optional(query) == last_question(messages(body@)),
{
    let list = match list_in(body, "messages") {
        Some(list) => list,
        None => {
            return None;
        },
    };
    let ghost all = messages(body@);
    let mut at: usize = list.len();
    proof {
        json::lemma_trees(list@);
        assert(all.take(at as int) =~= all);
    }
    while at > 0
        invariant
            at <= list.len(),
            all == messages(body@),
            all.len() == list@.len(),
            forall|i: int| 0 <= i < list@.len() ==> #[trigger] all[i] == json::tree_of(list@[i]),
            last_question(all) == last_question(all.take(at as int)),
        decreases at,
    {
        at = at - 1;
        proof {
            assert(all.take(at + 1).drop_last() =~= all.take(at as int));
            assert(all.take(at + 1).last() == list@[at as int]@);
        }
        if is_from(&list[at], "user") {
            return match list[at].get_str("content") {
                Some(content) => Some(content.to_owned()),
                None => None,
            };
        }
    }
    None
}

// ==================== Numbered sources ====================

/// Whether `content` holds a pair of brackets with no bracket between them.
pub open spec fn bracketed(content: Seq<char>, open: int, close: int) -> bool {
    &&& 0 <= open < close < content.len()
    &&& content[open] == '['
    &&& content[close] == ']'
    &&& forall|i: int| open < i < close ==> #[trigger] content[i] != '[' && content[i] != ']'
}

/// Whether `[n]` stands in `content`.
pub open spec fn numbers_source(content: Seq<char>, n: i32) -> bool {
    exists|open: int, close: int| #[trigger]
        bracketed(content, open, close) && text::i32_value(content.subrange(open + 1, close))
            == Some(n)
}

/// Whether `[n]` stands in one of some messages.
pub open spec fn names_source(messages: Seq<JsonTree>, n: i32) -> bool {
    exists|i: int|
        0 <= i < messages.len() && match (#[trigger] messages[i]).text_field("content"@) {
            Some(content) => numbers_source(content, n),
            None => false,
        }
}

spec fn bounded(number: Option<i32>, most: i32) -> bool {
    match number {
        Some(n) => n <= most,
        None => true,
    }
}

/// The greatest of `least` and the numbers in brackets.
fn greatest_in(content: &str, least: i32) -> (most: i32)
    ensures
        least <= most,
        forall|n: i32| #[trigger] numbers_source(content@, n) ==> n <= most,
        most == least || numbers_source(content@, most),
{
    let chars = text::chars_of(content);
    let mut most: i32 = least;
    let mut opened: Option<usize> = None;
    let mut at: usize = 0;
    while at < chars.len()
        invariant
            at <= chars.len(),
            chars@ == content@,
            least <= most,
            most == least || numbers_source(content@, most),
            match opened {
                Some(open) => open < at && content@[open as int] == '[' && forall|i: int|
                    open < i < at ==> #[trigger] content@[i] != '[' && content@[i] != ']',
                None => true,
            },
            forall|open: int|
                0 <= open < at && #[trigger] content@[open] == '[' && opened != Some(open as usize)
                    ==> exists|i: int|
                    open < i < at && (#[trigger] content@[i] == '[' || content@[i] == ']'),
            forall|open: int, close: int|
                close < at && #[trigger] bracketed(content@, open, close) ==> bounded(
                    text::i32_value(content@.subrange(open + 1, close)),
                    most,
                ),
        decreases chars.len() - at,
    {
        let ch: char = chars[at];
        if ch == '[' {
            proof {
                assert(content@[at as int] == '[');
            }
            opened = Some(at);
        } else if ch == ']' {
            assert(content@[at as int] == ']');
            if let Some(open) = opened {
                let ghost inner = content@.subrange(open + 1, at as int);
                assert(bracketed(content@, open as int, at as int));
                let number = text::parse_i32(text::string_of(&chars, open + 1, at).as_str());
                if let Some(n) = number {
                    if n > most {
                        most = n;
                        assert(text::i32_value(inner) == Some(n));
                    }
                }
            }
            proof {
                assert forall|open: int, close: int|
                    close < at + 1 && #[trigger] bracketed(content@, open, close) implies bounded(
                    text::i32_value(content@.subrange(open + 1, close)),
                    most,
                ) by {
                    if close == at {
                        assert(content@[open] == '[');
                        assert(opened == Some(open as usize));
                    }
                }
            }
            opened = None;
        }
        at = at + 1;
    }
    assert forall|n: i32| #[trigger] numbers_source(content@, n) implies n <= most by {
        let (open, close) = choose|open: int, close: int| #[trigger]
            bracketed(content@, open, close) && text::i32_value(
                content@.subrange(open + 1, close),
            ) == Some(n);
        assert(text::i32_value(content@.subrange(open + 1, close)) == Some(n));
    }
    most
}

/// The greatest number that stands in brackets in the messages: how many
/// numbered sources a prompt holds.
pub fn count_numbered_sources(body: &Json) -> (most: i32)
    ensures
        most >= 0,
        forall|n: i32| #[trigger] names_source(messages(body@), n) ==> n <= most,
        most == 0 || names_source(messages(body@), most),
{
    let list = match list_in(body, "messages") {
        Some(list) => list,
        None => {
            return 0;
        },
    };
    let ghost all = messages(body@);
    proof {
        json::lemma_trees(list@);
    }
    let mut most: i32 = 0;
    let mut at: usize = 0;
    while at < list.len()
        invariant
            at <= list.len(),
            most >= 0,
            all.len() == list@.len(),
            forall|i: int| 0 <= i < list@.len() ==> #[trigger] all[i] == json::tree_of(list@[i]),
            forall|n: i32| #[trigger] names_source(all.take(at as int), n) ==> n <= most,
            most == 0 || names_source(all.take(at as int), most),
        decreases list.len() - at,
    {
        let ghost before = all.take(at as int);
        let ghost after = all.take(at + 1);
        let ghost least = most;
        assert(all[at as int] == list@[at as int]@);
        let content = list[at].get_str("content");
        if let Some(content) = content {
            most = greatest_in(content, most);
        }
        proof {
            let found = all[at as int].text_field("content"@);
            assert forall|n: i32| #[trigger] names_source(after, n) implies n <= most by {
                let i = choose|i: int|
                    0 <= i < after.len() && match (#[trigger] after[i]).text_field("content"@) {
                        Some(content) => numbers_source(content, n),
                        None => false,
                    };
                if i < at {
                    assert(before[i] == after[i]);
                    assert(names_source(before, n));
                } else {
                    assert(after[i] == all[at as int]);
                }
            }
            if most != least {
                assert(after[at as int] == all[at as int]);
            } else if most != 0 {
                let i = choose|i: int|
                    0 <= i < before.len() && match (#[trigger] before[i]).text_field("content"@) {
                        Some(content) => numbers_source(content, most),
                        None => false,
                    };
                assert(after[i] == before[i]);
            }
        }
        at = at + 1;
    }
    assert(all.take(at as int) =~= all);
    most
}

/// What stands in an update prompt before the number of its first new source.
pub const NEW_SOURCES: &'static str = "NEW SOURCES TO INCORPORATE (cite as [";

/// The number of the first new source, as a text names it.
pub open spec fn new_source_in(content: Seq<char>) -> Option<i32> {
    match text::first_at(content, NEW_SOURCES@) {
        Some(at) => {
            let tail = content.skip(at + NEW_SOURCES@.len());
            match text::first_at(tail, "]"@) {
                Some(end) => text::i32_value(tail.take(end)),
                None => None,
            }
        },
        None => None,
    }
}

/// The number of the first new source, as the first message that names one
/// names it.
pub open spec fn first_new_source(messages: Seq<JsonTree>) -> Option<i32>
    decreases messages.len(),
{
    if messages.len() == 0 {
        None
    } else {
        match messages[0].text_field("content"@) {
            Some(content) => match new_source_in(content) {
                Some(n) => Some(n),
                None => first_new_source(messages.skip(1)),
            },
            None => first_new_source(messages.skip(1)),
        }
    }
}

fn new_source(content: &str) -> (number: Option<i32>)
    ensures
        number == new_source_in(content@),
{
    let chars = text::chars_of(content);
    let anchor = text::chars_of(NEW_SOURCES);
    proof {
        text::lemma_first_at(content@, NEW_SOURCES@);
    }
    let at = match text::find_chars(&chars, &anchor, 0) {
        Some(at) => at,
        None => {
            return None;
        },
    };
    assert(at + anchor.len() <= chars.len());
    let start: usize = at + anchor.len();
    let tail = text::chars_of(text::string_of(&chars, start, chars.len()).as_str());
    assert(tail@ =~= content@.skip(start as int));
    proof {
        text::lemma_first_at(tail@, "]"@);
    }
    match text::find_chars(&tail, &text::chars_of("]"), 0) {
        Some(end) => {
            assert(tail@.subrange(0, end as int) =~= tail@.take(end as int));
            text::parse_i32(text::string_of(&tail, 0, end).as_str())
        },
        None => None,
    }
}

/// The number that new sources start at in an update prompt.
pub fn first_new_source_index(body: &Json) -> (number: Option<i32>)
    ensures
        number == first_new_source(messages(body@)),
{
    let list = match list_in(body, "messages") {
        Some(list) => list,
        None => {
            return None;
        },
    };
    let ghost all = messages(body@);
    proof {
        json::lemma_trees(list@);
        assert(all.skip(0) =~= all);
    }
    let mut at: usize = 0;
    while at < list.len()
        invariant
            at <= list.len(),
            all == messages(body@),
            all.len() == list@.len(),
            forall|i: int| 0 <= i < list@.len() ==> #[trigger] all[i] == json::tree_of(list@[i]),
            first_new_source(all) == first_new_source(all.skip(at as int)),
        decreases list.len() - at,
    {
        proof {
            assert(all.skip(at as int)[0] == list@[at as int]@);
            assert(all.skip(at as int).skip(1) =~= all.skip(at + 1));
        }
        let content = list[at].get_str("content");
        if let Some(content) = content {
            let number = new_source(content);
            if number.is_some() {
                return number;
            }
        }
        at = at + 1;
    }
    None
}

// ==================== Laws ====================

/// What a request says stands in its fields, each under its own name: the
/// messages, the tools, whether it wants a stream, and what tools returned.
pub proof fn lemma_a_request_is_read_by_name(body: JsonTree, list: Seq<JsonTree>)
    ensures
        body.field("messages"@) == Some(JsonTree::List(list)) ==> messages(body) == list,
        body.field("messages"@) is None ==> messages(body).len() == 0,
        tools_offered(body) <==> (body.field("tools"@) matches Some(JsonTree::List(tools))
            && tools.len() > 0),
        wants_stream(body) <==> body.field("stream"@) == Some(JsonTree::Bool(true)),
        body.field("messages"@) == Some(JsonTree::List(list)) ==> (has_tool_results(body) <==> (
        exists|i: int|
            0 <= i < list.len() && (#[trigger] list[i]).field("role"@) == Some(
                JsonTree::Text("tool"@),
            ))),
{
    if body.field("messages"@) == Some(JsonTree::List(list)) && exists|i: int|
        0 <= i < list.len() && (#[trigger] list[i]).field("role"@) == Some(
            JsonTree::Text("tool"@),
        ) {
        let i = choose|i: int|
            0 <= i < list.len() && (#[trigger] list[i]).field("role"@) == Some(
                JsonTree::Text("tool"@),
            );
        assert(comes_from(messages(body)[i], "tool"@));
    }
}

/// A message of the model that calls at least one tool is a round, wherever it
/// stands; no other message is.
pub proof fn lemma_every_round_counts(early: Seq<JsonTree>, message: JsonTree, late: Seq<JsonTree>)
    ensures
        tool_rounds(early + seq![message] + late) == tool_rounds(early) + tool_rounds(late) + (
        if message.field("role"@) == Some(JsonTree::Text("assistant"@)) && (message.field(
            "tool_calls"@,
        ) matches Some(JsonTree::List(calls)) && calls.len() > 0) {
            1nat
        } else {
            0nat
        }),
        tool_rounds(Seq::empty()) == 0,
{
    let calls = |message: JsonTree| called_tools(message);
    Seq::filter_distributes_over_add(early + seq![message], late, calls);
    Seq::filter_distributes_over_add(early, seq![message], calls);
    lemma_tool_rounds_push(seq![message]);
    assert(seq![message].drop_last() =~= Seq::empty());
    reveal(Seq::filter);
    assert(tool_rounds(Seq::empty()) == 0);
}

/// The question is what the last message of the user says, whatever others say
/// behind it. Where the user said nothing there is none.
pub proof fn lemma_the_last_message_of_the_user_is_the_question(
    early: Seq<JsonTree>,
    message: JsonTree,
    late: Seq<JsonTree>,
)
    requires
        message.field("role"@) == Some(JsonTree::Text("user"@)),
        forall|i: int|
            0 <= i < late.len() ==> (#[trigger] late[i]).field("role"@) != Some(
                JsonTree::Text("user"@),
            ),
    ensures
        last_question(early + seq![message] + late) == (match message.field("content"@) {
            Some(JsonTree::Text(content)) => Some(content),
            _ => None,
        }),
        last_question(late) is None,
    decreases late.len(),
{
    let all = early + seq![message] + late;
    if late.len() == 0 {
        assert(all.last() == message);
    } else {
        let shorter = late.drop_last();
        assert(late.last() == late[late.len() - 1]);
        assert forall|i: int| 0 <= i < shorter.len() implies (#[trigger] shorter[i]).field("role"@)
            != Some(JsonTree::Text("user"@)) by {
            assert(shorter[i] == late[i]);
        }
        lemma_the_last_message_of_the_user_is_the_question(early, message, shorter);
        assert(all.drop_last() =~= early + seq![message] + shorter);
        assert(all.last() == late.last());
    }
}

proof fn lemma_digits_are_no_brackets(n: i32)
    ensures
        forall|i: int|
            0 <= i < text::signed_decimal(n as int).len() ==> (#[trigger] text::signed_decimal(
                n as int,
            )[i]) != '[' && text::signed_decimal(n as int)[i] != ']',
{
    let shown = text::signed_decimal(n as int);
    if n < 0 {
        let digits = text::decimal((-n) as nat);
        text::lemma_decimal_reads_back((-n) as nat);
        assert forall|i: int| 0 <= i < shown.len() implies (#[trigger] shown[i]) != '[' && shown[i]
            != ']' by {
            if i > 0 {
                assert(shown[i] == digits[i - 1]);
                assert(text::is_digit(digits[i - 1]));
            }
        }
    } else {
        text::lemma_decimal_reads_back(n as nat);
        assert forall|i: int| 0 <= i < shown.len() implies (#[trigger] shown[i]) != '[' && shown[i]
            != ']' by {
            assert(text::is_digit(shown[i]));
        }
    }
}

/// A number in brackets is a source, whatever stands around it; and what is a
/// source stands in brackets.
pub proof fn lemma_a_number_in_brackets_is_a_source(before: Seq<char>, n: i32, after: Seq<char>)
    ensures
        numbers_source(before + "["@ + text::signed_decimal(n as int) + "]"@ + after, n),
        numbers_source(before, n) ==> exists|inner: Seq<char>| #[trigger]
            text::has_text(before, "["@ + inner + "]"@) && text::i32_value(inner) == Some(n),
{
    reveal_strlit("[");
    reveal_strlit("]");
    let shown = text::signed_decimal(n as int);
    let whole = before + "["@ + shown + "]"@ + after;
    let open = before.len() as int;
    let close = open + 1 + shown.len();
    lemma_digits_are_no_brackets(n);
    text::lemma_numbers_read_back(0, n);
    assert(whole[open] == '[');
    assert(whole[close] == ']');
    assert forall|i: int| open < i < close implies #[trigger] whole[i] != '[' && whole[i] != ']' by {
        assert(whole[i] == shown[i - open - 1]);
    }
    assert(bracketed(whole, open, close));
    assert(whole.subrange(open + 1, close) =~= shown);
    if numbers_source(before, n) {
        let (open, close) = choose|open: int, close: int| #[trigger]
            bracketed(before, open, close) && text::i32_value(before.subrange(open + 1, close))
                == Some(n);
        let inner = before.subrange(open + 1, close);
        let needle = "["@ + inner + "]"@;
        assert(before.subrange(open, open + needle.len()) =~= needle);
        assert(text::occurs_at(before, needle, open));
        assert(text::has_text(before, needle));
    }
}

/// A source is numbered in some messages where what one of them says numbers
/// it.
pub proof fn lemma_every_message_may_number_a_source(
    early: Seq<JsonTree>,
    message: JsonTree,
    late: Seq<JsonTree>,
    n: i32,
)
    ensures
        names_source(early + seq![message] + late, n) <==> names_source(early, n) || names_source(
            late,
            n,
        ) || (message.field("content"@) matches Some(JsonTree::Text(content)) && numbers_source(
            content,
            n,
        )),
        !names_source(Seq::empty(), n),
{
    let all = early + seq![message] + late;
    let says = |message: JsonTree|
        match message.text_field("content"@) {
            Some(content) => numbers_source(content, n),
            None => false,
        };
    if names_source(all, n) {
        let i = choose|i: int|
            0 <= i < all.len() && match (#[trigger] all[i]).text_field("content"@) {
                Some(content) => numbers_source(content, n),
                None => false,
            };
        if i < early.len() {
            assert(early[i] == all[i]);
        } else if i > early.len() {
            assert(late[i - early.len() - 1] == all[i]);
        }
    }
    if names_source(early, n) {
        let i = choose|i: int|
            0 <= i < early.len() && match (#[trigger] early[i]).text_field("content"@) {
                Some(content) => numbers_source(content, n),
                None => false,
            };
        assert(all[i] == early[i]);
    }
    if names_source(late, n) {
        let i = choose|i: int|
            0 <= i < late.len() && match (#[trigger] late[i]).text_field("content"@) {
                Some(content) => numbers_source(content, n),
                None => false,
            };
        assert(all[early.len() + 1 + i] == late[i]);
    }
    if says(message) {
        assert(all[early.len() as int] == message);
    }
}

/// The number of the first new source is the one that an update prompt gives:
/// the first that a message gives, whatever stands around it.
pub proof fn lemma_new_sources_start_where_the_prompt_says(
    early: Seq<JsonTree>,
    message: JsonTree,
    late: Seq<JsonTree>,
    before: Seq<char>,
    n: i32,
    after: Seq<char>,
)
    requires
        message.field("content"@) == Some(
            JsonTree::Text(
                before + "NEW SOURCES TO INCORPORATE (cite as ["@ + text::signed_decimal(n as int)
                    + "]"@ + after,
            ),
        ),
        !text::has_text(
            before + "NEW SOURCES TO INCORPORATE (cite as ["@.drop_last(),
            "NEW SOURCES TO INCORPORATE (cite as ["@,
        ),
        forall|i: int|
            0 <= i < early.len() ==> ((#[trigger] early[i]).field("content"@) matches Some(
                JsonTree::Text(content),
            ) ==> !text::has_text(content, "NEW SOURCES TO INCORPORATE (cite as ["@)),
    ensures
        first_new_source(early + seq![message] + late) == Some(n),
        first_new_source(early) is None,
    decreases early.len(),
{
    let all = early + seq![message] + late;
    if early.len() == 0 {
        lemma_new_source_is_read(before, n, after);
        assert(all[0] == message);
    } else {
        let rest = early.skip(1);
        assert forall|i: int| 0 <= i < rest.len() implies ((#[trigger] rest[i]).field("content"@)
            matches Some(JsonTree::Text(content)) ==> !text::has_text(
            content,
            "NEW SOURCES TO INCORPORATE (cite as ["@,
        )) by {
            assert(rest[i] == early[i + 1]);
        }
        lemma_new_sources_start_where_the_prompt_says(rest, message, late, before, n, after);
        assert(all.skip(1) =~= rest + seq![message] + late);
        assert(all[0] == early[0]);
        if let Some(content) = early[0].text_field("content"@) {
            text::lemma_first_at(content, NEW_SOURCES@);
        }
    }
}

proof fn lemma_new_source_is_read(before: Seq<char>, n: i32, after: Seq<char>)
    requires
        !text::has_text(before + NEW_SOURCES@.drop_last(), NEW_SOURCES@),
    ensures
        new_source_in(
            before + "NEW SOURCES TO INCORPORATE (cite as ["@ + text::signed_decimal(n as int)
                + "]"@ + after,
        ) == Some(n),
{
    reveal_strlit("NEW SOURCES TO INCORPORATE (cite as [");
    reveal_strlit("]");
    let mark = NEW_SOURCES@;
    let shown = text::signed_decimal(n as int);
    let content = before + mark + shown + "]"@ + after;
    let n_before = before.len() as int;
    assert(content.subrange(n_before, n_before + mark.len()) =~= mark);
    assert(text::occurs_at(content, mark, n_before));
    text::lemma_first_from(content, mark, 0);
    let at = text::first_at(content, mark)->0;
    if at < n_before {
        let short = before + mark.drop_last();
        assert(content.subrange(at, at + mark.len()) =~= short.subrange(at, at + mark.len()));
        assert(text::occurs_at(short, mark, at));
    }
    assert(at == n_before);
    let tail = content.skip(at + mark.len());
    assert(tail =~= shown + "]"@ + after);
    let end = shown.len() as int;
    assert(tail.subrange(end, end + 1) =~= "]"@);
    assert(text::occurs_at(tail, "]"@, end));
    text::lemma_first_from(tail, "]"@, 0);
    let found = text::first_at(tail, "]"@)->0;
    if found < end {
        lemma_digits_are_no_brackets(n);
        assert(tail.subrange(found, found + 1)[0] == shown[found]);
        assert("]"@[0] == ']');
    }
    assert(tail.take(end) =~= shown);
    text::lemma_numbers_read_back(0, n);
}


} // verus!
