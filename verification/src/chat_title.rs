//! Titles for conversations.
//!
//! A conversation is created untitled. After a turn completes it is named from
//! its first exchange, unless it has a title by then.

use crate::providers::types;
use crate::providers::types::GenerationParams;
use crate::providers::types::LlmConfig;
use crate::providers::types::Message;
use crate::providers::types::MessageRole;
use crate::providers::types::MessageView;
use crate::text;
use crate::text::CharClass;
use vstd::prelude::*;

verus! {

/// Words that a generated title may keep.
pub const MAX_TITLE_WORDS: usize = 6;

/// The most characters of a title, for a model that answers with six very long
/// words.
pub const MAX_TITLE_CHARS: usize = 60;

/// How much of each message the model gets to name the conversation.
pub const MAX_EXCERPT_CHARS: usize = 1000;

pub const TITLE_SYSTEM_PROMPT: &'static str = "You write a conversation title: at most 6 words \
naming what the exchange is about. Reply with the title alone — no quotes, no \
trailing punctuation, no explanation.";

/// How freely a title is worded: the bits of 0.3 as a number of single
/// precision.
pub const TITLE_TEMPERATURE: u32 = 0x3e99999a;

/// The tokens that a title may take.
pub const TITLE_MAX_TOKENS: u32 = 32;

/// What a model is run with to name a conversation: briefly, and without much
/// thought.
pub fn title_config(model: &str) -> (config: LlmConfig)
    ensures
        config.model@ == model@,
        config.params.temperature == Some(TITLE_TEMPERATURE),
        config.params.max_tokens == Some(TITLE_MAX_TOKENS),
        config.params.structured_output is None,
        config.params.minimize_reasoning,
{
    LlmConfig {
        model: model.to_owned(),
        params: GenerationParams {
            temperature: Some(TITLE_TEMPERATURE),
            max_tokens: Some(TITLE_MAX_TOKENS),
            structured_output: None,
            minimize_reasoning: true,
        },
    }
}

/// A message of a stored conversation.
#[derive(Debug, PartialEq)]
pub struct ChatMessage {
    pub role: String,
    pub content: String,
}

/// At most `max` characters of a text, without white space at the cut.
pub open spec fn cropped(text: Seq<char>, max: int) -> Seq<char> {
    if text.len() <= max {
        text
    } else {
        text::drop_back(text.take(max), text::white())
    }
}

pub fn truncate_chars(text: &str, max_chars: usize) -> (kept: String)
    ensures
        kept@ == cropped(text@, max_chars as int),
{
    let chars = text::chars_of(text);
    if chars.len() <= max_chars {
        return text.to_owned();
    }
    let start = text::string_of(&chars, 0, max_chars);
    assert(start@ =~= text@.take(max_chars as int));
    text::strip_back(start.as_str(), &CharClass::White)
}

/// The first message of `role` that is not blank, without white space around
/// it and cropped.
pub open spec fn first_of_role(messages: Seq<ChatMessage>, role: Seq<char>) -> Option<Seq<char>>
    decreases messages.len(),
{
    if messages.len() == 0 {
        None
    } else if messages[0].role@ == role && !text::blank(messages[0].content@) {
        Some(cropped(text::trimmed(messages[0].content@), MAX_EXCERPT_CHARS as int))
    } else {
        first_of_role(messages.skip(1), role)
    }
}

pub fn first_message(messages: &Vec<ChatMessage>, role: &str) -> (found: Option<String>)
    ensures
        text::optional(found) == first_of_role(messages@, role@),
{
    let mut at: usize = 0;
    assert(messages@.skip(0) =~= messages@);
    while at < messages.len()
        invariant
            at <= messages.len(),
            first_of_role(messages@, role@) == first_of_role(messages@.skip(at as int), role@),
        decreases messages.len() - at,
    {
        let ghost rest = messages@.skip(at as int);
        assert(rest[0] == messages@[at as int]);
        assert(rest.skip(1) =~= messages@.skip(at + 1));
        if text::same_text(messages[at].role.as_str(), role) && !text::is_blank(
            messages[at].content.as_str(),
        ) {
            let content = text::trim(messages[at].content.as_str());
            return Some(truncate_chars(content.as_str(), MAX_EXCERPT_CHARS));
        }
        at = at + 1;
    }
    None
}

/// The first of `lines` that holds more than white space, trimmed.
pub open spec fn first_full(lines: Seq<Seq<char>>) -> Option<Seq<char>>
    decreases lines.len(),
{
    if lines.len() == 0 {
        None
    } else if !text::blank(lines[0]) {
        Some(text::trimmed(lines[0]))
    } else {
        first_full(lines.skip(1))
    }
}

/// The quotes and the marks of emphasis that models wrap titles in.
pub open spec fn decoration() -> Seq<char> {
    seq!['"', '\'', '“', '”', '‘', '’', '`', '*', '#']
}

/// The marks that end a sentence.
pub open spec fn sentence_ends() -> Seq<char> {
    seq!['.', ',', ';', ':', '!', '?']
}

/// A line without decoration around it, without the marks that end it as a
/// sentence, and without white space around what is left.
pub open spec fn undecorated(line: Seq<char>) -> Seq<char> {
    let bare = text::drop_back(
        text::drop_front(line, decoration().to_set()),
        decoration().to_set(),
    );
    text::trimmed(text::drop_back(bare, sentence_ends().to_set()))
}

/// The title that a model's answer holds: the first words of its first line.
pub open spec fn title_in(raw: Seq<char>) -> Option<Seq<char>> {
    match first_full(text::lines(raw)) {
        Some(line) => {
            let words = text::words(undecorated(line));
            let kept = if words.len() <= MAX_TITLE_WORDS {
                words
            } else {
                words.take(MAX_TITLE_WORDS as int)
            };
            let title = cropped(text::joined(kept, " "@), MAX_TITLE_CHARS as int);
            if title.len() == 0 {
                None
            } else {
                Some(title)
            }
        },
        None => None,
    }
}

/// Reduces a model's answer to something that belongs in a list row, or `None`
/// where nothing is left that is worth keeping.
pub fn sanitize(raw: &str) -> (title: Option<String>)
    ensures
        text::optional(title) == title_in(raw@),
{
    let lines = text::split_lines(raw);
    let ghost all = text::texts(lines@);
    let mut at: usize = 0;
    assert(all.skip(0) =~= all);
    while at < lines.len()
        invariant_except_break
            first_full(all) == first_full(all.skip(at as int)),
        invariant
            at <= lines.len(),
            all == text::texts(lines@),
            all == text::lines(raw@),
        ensures
            at < lines.len() ==> first_full(all) == Some(text::trimmed(lines@[at as int]@)),
            at == lines.len() ==> first_full(all) is None,
        decreases lines.len() - at,
    {
        let ghost rest = all.skip(at as int);
        assert(rest[0] == lines@[at as int]@);
        assert(rest.skip(1) =~= all.skip(at + 1));
        if !text::is_blank(lines[at].as_str()) {
            break;
        }
        at = at + 1;
    }
    if at == lines.len() {
        return None;
    }
    let line = text::trim(lines[at].as_str());
    let quotes = CharClass::Among(vec!['"', '\'', '“', '”', '‘', '’', '`', '*', '#']);
    let ends = CharClass::Among(vec!['.', ',', ';', ':', '!', '?']);
    proof {
        assert(quotes->Among_0@ =~= decoration());
        assert(ends->Among_0@ =~= sentence_ends());
    }
    let bare = text::strip_classes(line.as_str(), &quotes, &quotes);
    let open_ended = text::strip_back(bare.as_str(), &ends);
    let core = text::trim(open_ended.as_str());
    let words = text::split_words(core.as_str());
    let n: usize = if words.len() <= MAX_TITLE_WORDS {
        words.len()
    } else {
        MAX_TITLE_WORDS
    };
    let joined = text::join(&words, 0, n, " ");
    proof {
        let shown = text::texts(words@);
        assert(shown.subrange(0, n as int) =~= if shown.len() <= MAX_TITLE_WORDS {
            shown
        } else {
            shown.take(MAX_TITLE_WORDS as int)
        });
    }
    let title = truncate_chars(joined.as_str(), MAX_TITLE_CHARS);
    if title.as_str().is_empty() {
        None
    } else {
        Some(title)
    }
}

/// What a model is asked for the title of a conversation, given the excerpts
/// of its first exchange.
pub open spec fn title_request(user: Seq<char>, assistant: Seq<char>) -> Seq<MessageView> {
    seq![
        MessageView::plain(MessageRole::System, TITLE_SYSTEM_PROMPT@),
        MessageView::plain(
            MessageRole::User,
            "Message:\n"@ + user + "\n\nReply:\n"@ + assistant + "\n\nTitle:"@,
        ),
    ]
}

/// Decides whether a conversation is to be named, and what the model is asked
/// for that. A conversation that has a title keeps it, however it came by it;
/// one without a first exchange has nothing to be named from.
pub fn title_prompt(title: &Option<String>, messages: &Vec<ChatMessage>) -> (prompt: Option<
    Vec<Message>,
>)
    ensures
        match prompt {
            Some(prompt) => {
                &&& title is None
                &&& first_of_role(messages@, "user"@) matches Some(user)
                &&& first_of_role(messages@, "assistant"@) matches Some(assistant)
                &&& types::messages_view(prompt@) == title_request(user, assistant)
            },
            None => title is Some || first_of_role(messages@, "user"@) is None || first_of_role(
                messages@,
                "assistant"@,
            ) is None,
        },
{
    if title.is_some() {
        return None;
    }
    let user = match first_message(messages, "user") {
        Some(user) => user,
        None => {
            return None;
        },
    };
    let assistant = match first_message(messages, "assistant") {
        Some(assistant) => assistant,
        None => {
            return None;
        },
    };
    let mut question = String::from_str("Message:\n");
    question.append(user.as_str());
    question.append("\n\nReply:\n");
    question.append(assistant.as_str());
    question.append("\n\nTitle:");
    let mut prompt: Vec<Message> = Vec::new();
    prompt.push(Message::system(TITLE_SYSTEM_PROMPT));
    prompt.push(Message::user(question.as_str()));
    assert(types::messages_view(prompt@) =~= title_request(user@, assistant@));
    Some(prompt)
}

/// A title is not empty, is at most 60 characters long, stays on one line, and
/// has at most six words: its only white space is a space between two of them,
/// one between each two.
pub proof fn lemma_title_fits_a_row(raw: Seq<char>)
    ensures
        title_in(raw) matches Some(title) ==> {
            &&& 0 < title.len() <= MAX_TITLE_CHARS
            &&& forall|i: int|
                0 <= i < title.len() && text::is_white(#[trigger] title[i]) ==> title[i] == ' '
            &&& text::is_spaced_singly(title)
            &&& text::count_of(title, ' ') < MAX_TITLE_WORDS
        },
{
    if let Some(title) = title_in(raw) {
        let line = first_full(text::lines(raw))->0;
        let words = text::words(undecorated(line));
        text::lemma_words_are_solid(undecorated(line));
        let kept = if words.len() <= MAX_TITLE_WORDS {
            words
        } else {
            words.take(MAX_TITLE_WORDS as int)
        };
        assert forall|i: int| 0 <= i < kept.len() implies (#[trigger] kept[i]).len() > 0
            && text::is_solid(kept[i]) by {
            assert(kept[i] == words[i]);
        }
        text::lemma_joined_by_spaces(kept);
        let whole = text::joined(kept, " "@);
        if kept.len() == 0 {
            assert(whole.len() == 0);
        }
        if whole.len() > MAX_TITLE_CHARS {
            let start = whole.take(MAX_TITLE_CHARS as int);
            let n = text::lemma_back_run(start, text::white());
            text::lemma_drop_back(start, text::white(), n);
            assert(title == start.take(n));
            assert(title =~= whole.take(n));
            text::lemma_count_take(whole, n, ' ');
            assert forall|i: int|
                0 <= i < title.len() && text::is_white(#[trigger] title[i]) implies title[i]
                == ' ' by {
                assert(title[i] == whole[i]);
            }
            assert(title[0] == whole[0]);
            assert(!text::white().contains(start[n - 1]));
            assert(title.last() == start[n - 1]);
            assert forall|i: int, j: int|
                0 <= i && j == i + 1 && j < title.len() && text::is_white(
                    #[trigger] title[i],
                ) implies !text::is_white(#[trigger] title[j]) by {
                assert(title[i] == whole[i]);
                assert(title[j] == whole[j]);
            }
        }
    }
}

/// Whether `ch` is a quote or a mark of emphasis that titles come wrapped in.
pub open spec fn decorates(ch: char) -> bool {
    decoration().contains(ch)
}

/// Whether `ch` ends a sentence.
pub open spec fn ends_sentence(ch: char) -> bool {
    sentence_ends().contains(ch)
}

/// Which characters titles come wrapped in, and which end a sentence.
pub proof fn lemma_what_is_stripped(ch: char)
    ensures
        decorates(ch) <==> ch == '"' || ch == '\'' || ch == '“' || ch == '”' || ch == '‘' || ch == '’'
            || ch == '`' || ch == '*' || ch == '#',
        ends_sentence(ch) <==> ch == '.' || ch == ',' || ch == ';' || ch == ':' || ch == '!' || ch
            == '?',
{
    let marks = decoration();
    assert(marks[0] == '"' && marks[1] == '\'' && marks[2] == '“' && marks[3] == '”' && marks[4]
        == '‘' && marks[5] == '’' && marks[6] == '`' && marks[7] == '*' && marks[8] == '#');
    let ends = sentence_ends();
    assert(ends[0] == '.' && ends[1] == ',' && ends[2] == ';' && ends[3] == ':' && ends[4] == '!'
        && ends[5] == '?');
}

/// Whether `words` are words of a title: none is empty or holds white space, and
/// neither the first nor the last character needs stripping.
pub open spec fn are_title_words(words: Seq<Seq<char>>) -> bool {
    &&& words.len() > 0
    &&& forall|i: int|
        0 <= i < words.len() ==> (#[trigger] words[i]).len() > 0 && text::is_solid(words[i])
    &&& !decorates(words[0][0])
    &&& !decorates(words.last().last())
    &&& !ends_sentence(words.last().last())
}

proof fn lemma_joined_ends(words: Seq<Seq<char>>)
    requires
        are_title_words(words),
    ensures
        text::joined(words, " "@).len() > 0,
        text::joined(words, " "@)[0] == words[0][0],
        text::joined(words, " "@).last() == words.last().last(),
    decreases words.len(),
{
    reveal_strlit(" ");
    let whole = text::joined(words, " "@);
    if words.len() > 1 {
        lemma_joined_starts(words.drop_last());
        assert(words.drop_last()[0] == words[0]);
        assert(words[words.len() - 1].len() > 0);
    }
}

proof fn lemma_joined_starts(words: Seq<Seq<char>>)
    requires
        words.len() > 0,
        words[0].len() > 0,
    ensures
        text::joined(words, " "@).len() > 0,
        text::joined(words, " "@)[0] == words[0][0],
    decreases words.len(),
{
    if words.len() > 1 {
        lemma_joined_starts(words.drop_last());
    }
}

/// Whether `marks` is nothing but decoration.
pub open spec fn is_decoration(marks: Seq<char>) -> bool {
    forall|i: int| 0 <= i < marks.len() ==> decorates(#[trigger] marks[i])
}

/// Whether `marks` does nothing but end a sentence.
pub open spec fn are_stops(marks: Seq<char>) -> bool {
    forall|i: int| 0 <= i < marks.len() ==> ends_sentence(#[trigger] marks[i])
}

proof fn lemma_undecorated(
    before: Seq<char>,
    bare: Seq<char>,
    stops: Seq<char>,
    after: Seq<char>,
)
    requires
        is_decoration(before),
        are_stops(stops),
        is_decoration(after),
        bare.len() > 0,
        !decorates(bare[0]),
        !decorates(bare.last()),
        !ends_sentence(bare.last()),
        !text::is_white(bare[0]),
        !text::is_white(bare.last()),
    ensures
        undecorated(before + bare + stops + after) == bare,
{
    let marks = decoration().to_set();
    let line = before + bare + stops + after;
    let n = before.len() as int;
    assert forall|i: int| 0 <= i < n implies marks.contains(#[trigger] line[i]) by {
        assert(line[i] == before[i]);
        assert(decorates(before[i]));
    }
    assert(line[n] == bare[0]);
    text::lemma_drop_front(line, marks, n);
    let rest = line.skip(n);
    let body = bare + stops;
    assert(rest =~= body + after);
    let m = body.len() as int;
    assert forall|i: int| m <= i < rest.len() implies marks.contains(#[trigger] rest[i]) by {
        assert(rest[i] == after[i - m]);
        assert(decorates(after[i - m]));
    }
    assert(rest[m - 1] == body.last());
    if stops.len() > 0 {
        assert(body.last() == stops.last());
        assert(ends_sentence(stops[stops.len() - 1]));
        lemma_what_is_stripped(body.last());
    } else {
        assert(body.last() == bare.last());
    }
    text::lemma_drop_back(rest, marks, m);
    assert(rest.take(m) =~= body);
    let ends = sentence_ends().to_set();
    let k = bare.len() as int;
    assert forall|i: int| k <= i < body.len() implies ends.contains(#[trigger] body[i]) by {
        assert(body[i] == stops[i - k]);
        assert(ends_sentence(stops[i - k]));
    }
    assert(body[k - 1] == bare.last());
    text::lemma_drop_back(body, ends, k);
    assert(body.take(k) =~= bare);
    text::lemma_trimmed_solid(bare);
}

/// What a model answers with is its title, whatever quotes and emphasis it
/// comes wrapped in, however it ends as a sentence, and whatever lines follow:
/// the words as they stand, or the first six of them where there are more.
pub proof fn lemma_a_title_is_kept(
    words: Seq<Seq<char>>,
    before: Seq<char>,
    stops: Seq<char>,
    after: Seq<char>,
    more: Seq<char>,
)
    requires
        are_title_words(words),
        is_decoration(before),
        are_stops(stops),
        is_decoration(after),
        words.len() <= 6 ==> text::joined(words, " "@).len() <= 60,
        words.len() > 6 ==> text::joined(words.take(6), " "@).len() <= 60,
    ensures
        ({
            let title = if words.len() <= 6 {
                text::joined(words, " "@)
            } else {
                text::joined(words.take(6), " "@)
            };
            let line = before + text::joined(words, " "@) + stops + after;
            &&& title_in(line) == Some(title)
            &&& title_in(line + seq!['\n'] + more) == Some(title)
        }),
{
    let bare = text::joined(words, " "@);
    let tail = stops + after;
    let line = before + bare + stops + after;
    assert(line =~= before + bare + tail);
    lemma_joined_ends(words);
    lemma_undecorated(before, bare, stops, after);
    text::lemma_words_put_together(words);
    text::lemma_joined_by_spaces(words);
    assert forall|i: int| 0 <= i < line.len() implies #[trigger] line[i] != '\n' && line[i]
        != '\r' by {
        if i < before.len() {
            assert(line[i] == before[i]);
            assert(decorates(before[i]));
            lemma_what_is_stripped(line[i]);
        } else if i < before.len() + bare.len() {
            assert(line[i] == bare[i - before.len()]);
            if text::is_white(bare[i - before.len()]) {
                assert(bare[i - before.len()] == ' ');
            }
        } else {
            let j = i - before.len() - bare.len();
            assert(line[i] == tail[j]);
            if j < stops.len() {
                assert(ends_sentence(stops[j]));
            } else {
                assert(decorates(after[j - stops.len()]));
            }
            lemma_what_is_stripped(line[i]);
        }
    }
    text::lemma_lines_one_by_one(line, more);
    assert(text::is_solid(words[0]));
    assert(text::is_solid(words[words.len() - 1]));
    assert forall|i: int| (i == 0 || i == line.len() - 1) implies !text::is_white(
        #[trigger] line[i],
    ) by {
        if i < before.len() {
            assert(line[i] == before[i]);
            assert(decorates(before[i]));
            lemma_what_is_stripped(line[i]);
        } else if i < before.len() + bare.len() {
            assert(line[i] == bare[i - before.len()]);
            if i == 0 {
                assert(!text::is_white(words[0][0]));
            } else if i == line.len() - 1 && tail.len() == 0 && i - before.len() == bare.len()
                - 1 {
                assert(line[i] == bare.last());
                let last = words.last();
                assert(!text::is_white(last[last.len() - 1]));
            }
        } else {
            let j = i - before.len() - bare.len();
            assert(line[i] == tail[j]);
            if j < stops.len() {
                assert(ends_sentence(stops[j]));
            } else {
                assert(decorates(after[j - stops.len()]));
            }
            lemma_what_is_stripped(line[i]);
        }
    }
    assert(!text::blank(line)) by {
        assert(!text::is_white(line[0]));
    }
    text::lemma_trimmed_solid(line);
    let alone = text::lines(line);
    let among = text::lines(line + seq!['\n'] + more);
    assert(alone[0] == line && among[0] == line);
    assert(first_full(alone) == Some(line));
    assert(first_full(among) == Some(line));
    let kept = if words.len() <= 6 {
        words
    } else {
        words.take(6)
    };
    lemma_joined_starts(kept);
}

/// What is told of an exchange is its first message of a role that holds more
/// than white space, without the white space around it, and no more than a
/// thousand characters of it.
pub proof fn lemma_the_first_full_message_counts(messages: Seq<ChatMessage>, role: Seq<char>) -> (
    k: int)
    ensures
        match first_of_role(messages, role) {
            Some(shown) => {
                &&& 0 <= k < messages.len()
                &&& messages[k].role@ == role
                &&& !text::blank(messages[k].content@)
                &&& forall|i: int|
                    0 <= i < k ==> (#[trigger] messages[i]).role@ != role || text::blank(
                        messages[i].content@,
                    )
                &&& shown == cropped(text::trimmed(messages[k].content@), 1000)
            },
            None => forall|i: int|
                0 <= i < messages.len() ==> (#[trigger] messages[i]).role@ != role || text::blank(
                    messages[i].content@,
                ),
        },
    decreases messages.len(),
{
    if messages.len() == 0 {
        0
    } else if messages[0].role@ == role && !text::blank(messages[0].content@) {
        0
    } else {
        let rest = messages.skip(1);
        let k = lemma_the_first_full_message_counts(rest, role);
        assert forall|i: int| 1 <= i < messages.len() implies #[trigger] messages[i] == rest[i
            - 1] by {}
        k + 1
    }
}

/// A text that is cropped keeps its start: all of it where it is short enough,
/// and else so much that nothing but white space is missing up to the limit.
pub proof fn lemma_cropping_keeps_the_start(text: Seq<char>, max: int)
    requires
        0 <= max,
    ensures
        cropped(text, max).len() <= max,
        cropped(text, max).len() <= text.len(),
        cropped(text, max) == text.take(cropped(text, max).len() as int),
        text.len() <= max ==> cropped(text, max) == text,
        text.len() > max ==> forall|i: int|
            cropped(text, max).len() <= i < max ==> text::is_white(#[trigger] text[i]),
{
    if text.len() > max {
        let start = text.take(max);
        let n = text::lemma_back_run(start, text::white());
        text::lemma_drop_back(start, text::white(), n);
        assert(start.take(n) =~= text.take(n));
        assert forall|i: int| n <= i < max implies text::is_white(#[trigger] text[i]) by {
            assert(text::white().contains(start[i]));
        }
    } else {
        assert(text.take(text.len() as int) =~= text);
    }
}

/// What a model is asked for a title: the rules first, and then both sides of
/// the exchange.
pub proof fn lemma_both_sides_are_shown(user: Seq<char>, assistant: Seq<char>)
    ensures
        title_request(user, assistant).len() == 2,
        title_request(user, assistant)[0].role == MessageRole::System,
        title_request(user, assistant)[0].content == Some(TITLE_SYSTEM_PROMPT@),
        title_request(user, assistant)[1].role == MessageRole::User,
        title_request(user, assistant)[1].content == Some(
            "Message:\n"@ + user + "\n\nReply:\n"@ + assistant + "\n\nTitle:"@,
        ),
{
}

} // verus!
