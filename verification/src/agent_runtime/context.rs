//! Context-window management for the agent loop.
//!
//! Tool results make a run's prompt grow without bound, so every call is
//! trimmed to what the model can hold. Trimming works on groups: an assistant
//! message and the tool results that answer it are one unit, because a request
//! that splits them is not valid.

use crate::agent_runtime::run;
use crate::providers::types;
use crate::providers::types::Message;
use crate::providers::types::MessageRole;
use crate::providers::types::MessageView;
use crate::providers::types::ToolCallView;
use vstd::prelude::*;

verus! {

/// The tokens of one message, counted piece by piece.
#[derive(Debug, PartialEq)]
pub struct MessageTokens {
    /// The tokens of its content.
    pub content: usize,
    /// The tokens of the name and of the arguments of each of its tool calls.
    pub calls: Vec<(usize, usize)>,
}

/// The texts of one message that count, piece by piece as [`MessageTokens`] has
/// their tokens.
#[derive(Debug, PartialEq)]
pub struct MessageTexts {
    pub content: String,
    /// The name and the arguments of each tool call.
    pub calls: Vec<(String, String)>,
}

/// The texts of tool calls that count: of each its name and its arguments. What
/// a call does not have counts as an empty text.
pub open spec fn call_texts(calls: Seq<ToolCallView>) -> Seq<(Seq<char>, Seq<char>)> {
    Seq::new(
        calls.len(),
        |i: int|
            (
                types::or_empty(calls[i].called_name()),
                types::or_empty(calls[i].called_arguments()),
            ),
    )
}

/// The tool calls of a message.
pub open spec fn calls_of(message: MessageView) -> Seq<ToolCallView> {
    match message.tool_calls {
        Some(calls) => calls,
        None => Seq::empty(),
    }
}

/// What pairs of texts are.
pub open spec fn pairs_view(pairs: Seq<(String, String)>) -> Seq<(Seq<char>, Seq<char>)> {
    Seq::new(pairs.len(), |i: int| (pairs[i].0@, pairs[i].1@))
}

/// The texts of a message whose tokens have to be counted.
pub fn texts_to_count(message: &Message) -> (texts: MessageTexts)
    ensures
        texts.content@ == types::or_empty(message@.content),
        pairs_view(texts.calls@) == call_texts(calls_of(message@)),
{
    let content = match &message.content {
        Some(content) => content.clone(),
        None => String::new(),
    };
    let mut pairs: Vec<(String, String)> = Vec::new();
    if let Some(calls) = &message.tool_calls {
        let mut at: usize = 0;
        while at < calls.len()
            invariant
                at <= calls.len(),
                pairs@.len() == at,
                forall|i: int|
                    0 <= i < at ==> (#[trigger] pairs@[i]).0@ == types::or_empty(
                        calls@[i]@.called_name(),
                    ) && pairs@[i].1@ == types::or_empty(calls@[i]@.called_arguments()),
            decreases calls.len() - at,
        {
            pairs.push((calls[at].name_or_empty(), calls[at].arguments_or_empty()));
            at = at + 1;
        }
    }
    assert(pairs_view(pairs@) =~= call_texts(calls_of(message@)));
    MessageTexts { content, calls: pairs }
}

/// What each tool call costs beside its name and its arguments.
pub const CALL_OVERHEAD: usize = 10;

/// The tokens of tool calls.
pub open spec fn call_tokens(calls: Seq<(usize, usize)>) -> nat
    decreases calls.len(),
{
    if calls.len() == 0 {
        0
    } else {
        call_tokens(calls.drop_last()) + calls.last().0 as nat + calls.last().1 as nat
            + CALL_OVERHEAD as nat
    }
}

impl MessageTokens {
    /// The tokens of the message, tool calls and all.
    pub open spec fn total(&self) -> nat {
        self.content as nat + call_tokens(self.calls@)
    }
}

/// The tokens of each message.
pub open spec fn totals(counts: Seq<MessageTokens>) -> Seq<nat> {
    Seq::new(counts.len(), |i: int| counts[i].total())
}

/// The tokens of the messages at positions `from..to`.
pub open spec fn sum(tokens: Seq<nat>, from: int, to: int) -> nat
    decreases to - from,
{
    if from >= to {
        0
    } else {
        sum(tokens, from, to - 1) + tokens[to - 1]
    }
}

proof fn lemma_sum_split(tokens: Seq<nat>, from: int, mid: int, to: int)
    requires
        from <= mid <= to,
    ensures
        sum(tokens, from, to) == sum(tokens, from, mid) + sum(tokens, mid, to),
    decreases to - mid,
{
    if mid < to {
        lemma_sum_split(tokens, from, mid, to - 1);
    }
}

proof fn lemma_call_tokens_grow(calls: Seq<(usize, usize)>, n: int)
    requires
        0 <= n <= calls.len(),
    ensures
        call_tokens(calls.take(n)) <= call_tokens(calls),
    decreases calls.len() - n,
{
    if n == calls.len() {
        assert(calls.take(n) =~= calls);
    } else {
        lemma_call_tokens_grow(calls.drop_last(), n);
        assert(calls.drop_last().take(n) =~= calls.take(n));
    }
}

/// Estimates the tokens of a message, tool calls and all.
pub fn estimate_message_tokens(counts: &MessageTokens) -> (tokens: usize)
    requires
        counts.total() <= usize::MAX,
    ensures
        tokens == counts.total(),
{
    let mut tokens: usize = counts.content;
    let mut at: usize = 0;
    assert(counts.calls@.take(0) =~= Seq::empty());
    while at < counts.calls.len()
        invariant
            at <= counts.calls.len(),
            counts.total() <= usize::MAX,
            tokens == counts.content + call_tokens(counts.calls@.take(at as int)),
        decreases counts.calls.len() - at,
    {
        proof {
            let grown = counts.calls@.take(at + 1);
            assert(grown.drop_last() =~= counts.calls@.take(at as int));
            lemma_call_tokens_grow(counts.calls@, at + 1);
        }
        tokens = tokens + counts.calls[at].0 + counts.calls[at].1 + CALL_OVERHEAD;
        at = at + 1;
    }
    assert(counts.calls@.take(at as int) =~= counts.calls@);
    tokens
}

/// Where the group that starts at `start` ends.
pub open spec fn group_end(messages: Seq<MessageView>, start: int) -> int {
    if messages[start].role == MessageRole::Assistant && messages[start].tool_calls is Some {
        results_end(messages, start + 1)
    } else {
        start + 1
    }
}

/// Where the tool results from `at` on end.
pub open spec fn results_end(messages: Seq<MessageView>, at: int) -> int
    decreases messages.len() - at,
{
    if 0 <= at < messages.len() && messages[at].role == MessageRole::Tool {
        results_end(messages, at + 1)
    } else {
        at
    }
}

/// Where the groups from `from` on start and end.
pub open spec fn groups(messages: Seq<MessageView>, from: int) -> Seq<(int, int)>
    decreases messages.len() - from,
    via groups_decreases
{
    if 0 <= from < messages.len() {
        let end = group_end(messages, from);
        seq![(from, end)] + groups(messages, end)
    } else {
        Seq::empty()
    }
}

#[via_fn]
proof fn groups_decreases(messages: Seq<MessageView>, from: int) {
    if 0 <= from < messages.len() {
        lemma_results_end(messages, from + 1);
    }
}

proof fn lemma_results_end(messages: Seq<MessageView>, at: int)
    requires
        0 <= at <= messages.len(),
    ensures
        at <= results_end(messages, at) <= messages.len(),
        forall|i: int|
            at <= i < results_end(messages, at) ==> (#[trigger] messages[i]).role
                == MessageRole::Tool,
        results_end(messages, at) < messages.len() ==> messages[results_end(messages, at)].role
            != MessageRole::Tool,
    decreases messages.len() - at,
{
    if at < messages.len() && messages[at].role == MessageRole::Tool {
        lemma_results_end(messages, at + 1);
    }
}

/// The groups stand one behind the other and cover the messages.
pub proof fn lemma_groups_cover(messages: Seq<MessageView>, from: int)
    requires
        0 <= from <= messages.len(),
    ensures
        ({
            let all = groups(messages, from);
            &&& all.len() > 0 <==> from < messages.len()
            &&& all.len() <= messages.len() - from
            &&& all.len() > 0 ==> (#[trigger] all[0]).0 == from && all.last().1 == messages.len()
            &&& forall|i: int|
                0 <= i < all.len() ==> from <= (#[trigger] all[i]).0 && all[i].0 < all[i].1
                    && all[i].1 <= messages.len() && all[i].1 == group_end(messages, all[i].0)
            &&& forall|i: int, j: int|
                0 <= i && j == i + 1 && j < all.len() ==> (#[trigger] all[i]).1 == (
                #[trigger] all[j]).0
        }),
    decreases messages.len() - from,
{
    if from < messages.len() {
        lemma_results_end(messages, from + 1);
        let end = group_end(messages, from);
        lemma_groups_cover(messages, end);
        let rest = groups(messages, end);
        let all = groups(messages, from);
        assert(all =~= seq![(from, end)] + rest);
        assert forall|i: int| 0 <= i < all.len() implies from <= (#[trigger] all[i]).0 && all[i].0
            < all[i].1 && all[i].1 <= messages.len() && all[i].1 == group_end(
            messages,
            all[i].0,
        ) by {
            if i > 0 {
                assert(all[i] == rest[i - 1]);
            }
        }
        assert forall|i: int, j: int| 0 <= i && j == i + 1 && j < all.len() implies (
        #[trigger] all[i]).1 == (#[trigger] all[j]).0 by {
            assert(all[j] == rest[j - 1]);
            if i > 0 {
                assert(all[i] == rest[i - 1]);
            }
        }
        if rest.len() > 0 {
            assert(all.last() == rest.last());
        }
    }
}

/// The numbers from here on take more than 53 bits.
pub const BITS_53: u128 = 9007199254740992;

/// 0.7 in units of one over two to the power of 53, as near as those allow.
pub const SEVEN_TENTHS: u128 = 6305039478318694;

/// The distance between the numbers of 53 significant bits around `n`: a power
/// of two.
pub open spec fn spacing(n: nat) -> nat
    decreases n,
{
    if n < BITS_53 {
        1
    } else {
        2 * spacing(n / 2)
    }
}

/// `n` rounded to 53 significant bits; of two that are equally near, the one
/// whose last bit is zero.
pub open spec fn rounded(n: nat) -> nat {
    let unit = spacing(n);
    let low = n / unit;
    let rest = n % unit;
    if 2 * rest > unit || (2 * rest == unit && low % 2 == 1) {
        (low + 1) * unit
    } else {
        low * unit
    }
}

/// The tokens that a prompt may take: seven tenths of the context window, the
/// way arithmetic with 53 significant bits rounds them. The rest is left for
/// the answer and for tool results.
pub open spec fn prompt_budget(context_length: usize) -> nat {
    let budget = rounded(rounded(context_length as nat) * SEVEN_TENTHS as nat) / BITS_53 as nat;
    if budget <= usize::MAX {
        budget
    } else {
        usize::MAX as nat
    }
}

proof fn lemma_spacing_bounds(n: nat)
    ensures
        1 <= spacing(n),
        n >= 1 ==> spacing(n) <= n,
    decreases n,
{
    if n >= BITS_53 {
        lemma_spacing_bounds(n / 2);
    }
}

proof fn lemma_rounded_bound(n: nat)
    ensures
        rounded(n) <= 2 * n,
{
    lemma_spacing_bounds(n);
    let unit = spacing(n);
    let low = n / unit;
    assert(low * unit <= n && (low + 1) * unit <= n + unit) by (nonlinear_arith)
        requires
            low == n / unit,
            unit >= 1,
    ;
}

fn round_to_53_bits(n: u128) -> (r: u128)
    requires
        n <= 0x1000000000000000000000000000000,
    ensures
        r == rounded(n as nat),
{
    let mut half: u128 = n;
    let mut unit: u128 = 1;
    assert(1 * spacing(half as nat) == spacing(half as nat));
    while half >= BITS_53
        invariant
            n <= 0x1000000000000000000000000000000,
            1 <= unit,
            unit * half <= n,
            spacing(n as nat) == unit * spacing(half as nat),
        decreases half,
    {
        proof {
            let s = spacing((half / 2) as nat);
            assert(spacing(half as nat) == 2 * s);
            assert(unit * (2 * s) == (unit * 2) * s) by (nonlinear_arith);
            assert((unit * 2) * (half / 2) <= unit * half) by (nonlinear_arith)
                requires
                    unit >= 1,
                    half >= 0,
            ;
            assert(unit <= unit * half) by (nonlinear_arith)
                requires
                    half >= 1,
                    unit >= 1,
            ;
        }
        half = half / 2;
        unit = unit * 2;
    }
    assert(spacing(half as nat) == 1);
    assert(unit * 1 == unit) by (nonlinear_arith);
    proof {
        lemma_spacing_bounds(n as nat);
        lemma_rounded_bound(n as nat);
    }
    let low: u128 = n / unit;
    let rest: u128 = n % unit;
    assert(low * unit <= n && (low + 1) * unit <= n + unit && 2 * rest <= 2 * n) by (nonlinear_arith)
        requires
            low == n / unit,
            rest == n % unit,
            unit >= 1,
    ;
    if 2 * rest > unit || (2 * rest == unit && low % 2 == 1) {
        (low + 1) * unit
    } else {
        low * unit
    }
}

/// Computes the tokens that a prompt may take.
pub fn budget_for(context_length: usize) -> (budget: usize)
    ensures
        budget == prompt_budget(context_length),
{
    let length = round_to_53_bits(context_length as u128);
    proof {
        lemma_rounded_bound(context_length as nat);
    }
    assert(length * SEVEN_TENTHS <= 0x1000000000000000000000000000000) by (nonlinear_arith)
        requires
            length <= 0x20000000000000000,
            SEVEN_TENTHS == 6305039478318694,
    ;
    assert(length * SEVEN_TENTHS == (length as nat) * (SEVEN_TENTHS as nat));
    let product = round_to_53_bits(length * SEVEN_TENTHS);
    let budget: u128 = product / BITS_53;
    if budget <= usize::MAX as u128 {
        budget as usize
    } else {
        usize::MAX
    }
}

/// The tokens of a group.
pub open spec fn group_tokens(tokens: Seq<nat>, group: (int, int)) -> nat {
    sum(tokens, group.0, group.1)
}

/// The first of the groups before `at` that is kept, going back as long as
/// groups fit in `room`. The first group of all is not among them.
pub open spec fn keep_from(
    all: Seq<(int, int)>,
    tokens: Seq<nat>,
    at: int,
    room: int,
) -> int
    decreases at,
{
    if at <= 1 || group_tokens(tokens, all[at - 1]) > room {
        at
    } else {
        keep_from(all, tokens, at - 1, room - group_tokens(tokens, all[at - 1]))
    }
}

/// What is left of `budget` once the first and the last group are taken.
pub open spec fn room_between(all: Seq<(int, int)>, tokens: Seq<nat>, budget: nat) -> int {
    let taken = group_tokens(tokens, all[0]) + group_tokens(tokens, all.last());
    if budget <= taken {
        0
    } else {
        budget - taken
    }
}

/// Where the first group ends and where the kept rest starts, in a history
/// that has to be trimmed.
pub open spec fn cut(messages: Seq<MessageView>, tokens: Seq<nat>, budget: nat) -> (int, int) {
    let all = groups(messages, 0);
    let k = keep_from(all, tokens, all.len() - 1, room_between(all, tokens, budget));
    (all[0].1, all[k].0)
}

/// Whether a history has to be trimmed: it takes more than `budget`, and there
/// is something between its first and its last group.
pub open spec fn too_long(messages: Seq<MessageView>, tokens: Seq<nat>, budget: nat) -> bool {
    messages.len() > 2 && sum(tokens, 0, messages.len() as int) > budget && groups(
        messages,
        0,
    ).len() > 2
}

/// A history trimmed to `budget`: the first group, and the most recent groups
/// as far as they fit. The last group is kept in any case.
pub open spec fn trimmed_history(messages: Seq<MessageView>, tokens: Seq<nat>, budget: nat) -> Seq<
    MessageView,
> {
    if too_long(messages, tokens, budget) {
        let (end, start) = cut(messages, tokens, budget);
        messages.take(end) + messages.skip(start)
    } else {
        messages
    }
}

proof fn lemma_keep_from(all: Seq<(int, int)>, tokens: Seq<nat>, at: int, room: int)
    requires
        1 <= at < all.len(),
    ensures
        1 <= keep_from(all, tokens, at, room) <= at,
    decreases at,
{
    if at > 1 && group_tokens(tokens, all[at - 1]) <= room {
        lemma_keep_from(all, tokens, at - 1, room - group_tokens(tokens, all[at - 1]));
    }
}

/// A group of messages that must be kept together.
struct MessageGroup {
    start: usize,
    end: usize,
    tokens: usize,
}

spec fn bounds(list: Seq<MessageGroup>) -> Seq<(int, int)> {
    Seq::new(list.len(), |i: int| (list[i].start as int, list[i].end as int))
}

fn group_messages(messages: &Vec<Message>, message_tokens: &Vec<usize>, tokens: Ghost<Seq<nat>>) -> (list: Vec<
    MessageGroup,
>)
    requires
        message_tokens@.len() == messages@.len(),
        tokens@.len() == messages@.len(),
        forall|i: int| 0 <= i < messages@.len() ==> #[trigger] message_tokens@[i] == tokens@[i],
        sum(tokens@, 0, messages@.len() as int) <= usize::MAX,
    ensures
        bounds(list@) == groups(types::messages_view(messages@), 0),
        forall|i: int|
            0 <= i < list@.len() ==> (#[trigger] list@[i]).tokens == sum(
                tokens@,
                list@[i].start as int,
                list@[i].end as int,
            ),
{
    let ghost view = types::messages_view(messages@);
    let mut list: Vec<MessageGroup> = Vec::new();
    let mut i: usize = 0;
    assert(bounds(list@) + groups(view, 0) =~= groups(view, 0));
    while i < messages.len()
        invariant
            i <= messages.len(),
            view == types::messages_view(messages@),
            message_tokens@.len() == messages@.len(),
            tokens@.len() == messages@.len(),
            forall|j: int| 0 <= j < messages@.len() ==> #[trigger] message_tokens@[j] == tokens@[j],
            sum(tokens@, 0, messages@.len() as int) <= usize::MAX,
            bounds(list@) + groups(view, i as int) == groups(view, 0),
            forall|j: int|
                0 <= j < list@.len() ==> (#[trigger] list@[j]).tokens == sum(
                    tokens@,
                    list@[j].start as int,
                    list@[j].end as int,
                ),
        decreases messages.len() - i,
    {
        let start: usize = i;
        let mut total: usize = message_tokens[i];
        assert(view[start as int] == messages@[start as int]@);
        let is_round = messages[i].role == MessageRole::Assistant && messages[i].tool_calls.is_some();
        i = i + 1;
        assert(sum(tokens@, start as int, start as int) == 0);
        if is_round {
            while i < messages.len() && messages[i].role == MessageRole::Tool
                invariant
                    start < i <= messages.len(),
                    view == types::messages_view(messages@),
                    message_tokens@.len() == messages@.len(),
                    tokens@.len() == messages@.len(),
                    forall|j: int|
                        0 <= j < messages@.len() ==> #[trigger] message_tokens@[j] == tokens@[j],
                    sum(tokens@, 0, messages@.len() as int) <= usize::MAX,
                    total == sum(tokens@, start as int, i as int),
                    results_end(view, start + 1) == results_end(view, i as int),
                decreases messages.len() - i,
            {
                proof {
                    lemma_sum_split(tokens@, 0, start as int, messages@.len() as int);
                    lemma_sum_split(tokens@, start as int, i + 1, messages@.len() as int);
                }
                total = total + message_tokens[i];
                i = i + 1;
            }
        }
        let ghost before = list@;
        list.push(MessageGroup { start, end: i, tokens: total });
        proof {
            assert(group_end(view, start as int) == i);
            assert(bounds(list@) =~= bounds(before).push((start as int, i as int)));
            assert(bounds(list@) + groups(view, i as int) =~= bounds(before) + (seq![
                (start as int, i as int),
            ] + groups(view, i as int)));
        }
    }
    assert(groups(view, i as int) =~= Seq::empty());
    assert(bounds(list@) + groups(view, i as int) =~= bounds(list@));
    list
}

/// Trims a message history to fit the provider's context window.
///
/// Keeps the first group, which is the system prompt, and the last, and then
/// as many recent groups as fit in what is left of the budget. Never splits an
/// assistant message from the tool results that answer it. Where the length of
/// the window is not known, the history is returned as it is.
pub fn truncate_messages_to_context(
    messages: Vec<Message>,
    counts: &Vec<MessageTokens>,
    context_length: Option<usize>,
) -> (kept: Vec<Message>)
    requires
        counts@.len() == messages@.len(),
        sum(totals(counts@), 0, counts@.len() as int) <= usize::MAX,
    ensures
        types::messages_view(kept@) == (match context_length {
            Some(context_length) => trimmed_history(
                types::messages_view(messages@),
                totals(counts@),
                prompt_budget(context_length),
            ),
            None => types::messages_view(messages@),
        }),
{
    let max_tokens = match context_length {
        Some(context_length) => budget_for(context_length),
        None => {
            return messages;
        },
    };
    if messages.len() <= 2 {
        return messages;
    }
    let ghost tokens = totals(counts@);
    let ghost view = types::messages_view(messages@);
    let mut message_tokens: Vec<usize> = Vec::new();
    let mut total: usize = 0;
    let mut at: usize = 0;
    while at < counts.len()
        invariant
            at <= counts.len(),
            tokens == totals(counts@),
            sum(tokens, 0, counts@.len() as int) <= usize::MAX,
            message_tokens@.len() == at,
            forall|i: int| 0 <= i < at ==> #[trigger] message_tokens@[i] == tokens[i],
            total == sum(tokens, 0, at as int),
        decreases counts.len() - at,
    {
        proof {
            lemma_sum_split(tokens, 0, at + 1, counts@.len() as int);
            assert(tokens[at as int] == counts@[at as int].total());
        }
        let estimate = estimate_message_tokens(&counts[at]);
        message_tokens.push(estimate);
        total = total + estimate;
        at = at + 1;
    }
    if total <= max_tokens {
        return messages;
    }
    let list = group_messages(&messages, &message_tokens, Ghost(tokens));
    let ghost all = groups(view, 0);
    assert(list@.len() == all.len());
    if list.len() <= 2 {
        return messages;
    }
    proof {
        lemma_groups_cover(view, 0);
        assert(all[0] == bounds(list@)[0]);
        assert(all.last() == bounds(list@)[list@.len() - 1]);
        lemma_two_groups(tokens, all, 0, all.len() - 1, messages@.len() as int);
    }
    let last: usize = list.len() - 1;
    let taken: usize = list[0].tokens + list[last].tokens;
    let mut room: usize = if max_tokens < taken {
        0
    } else {
        max_tokens - taken
    };
    let mut keep: usize = last;
    let ghost room_all = room as int;
    assert(room_all == room_between(all, tokens, max_tokens as nat));
    while keep > 1 && list[keep - 1].tokens <= room
        invariant
            1 <= keep <= last,
            last == list@.len() - 1,
            all == bounds(list@),
            forall|i: int|
                0 <= i < list@.len() ==> (#[trigger] list@[i]).tokens == sum(
                    tokens,
                    list@[i].start as int,
                    list@[i].end as int,
                ),
            keep_from(all, tokens, last as int, room_all) == keep_from(
                all,
                tokens,
                keep as int,
                room as int,
            ),
        decreases keep,
    {
        assert(all[keep - 1] == (list@[keep - 1].start as int, list@[keep - 1].end as int));
        room = room - list[keep - 1].tokens;
        keep = keep - 1;
    }
    proof {
        if keep > 1 {
            assert(all[keep - 1] == (list@[keep - 1].start as int, list@[keep - 1].end as int));
        }
        assert(all[keep as int] == (list@[keep as int].start as int, list@[keep as int].end as int));
        assert(cut(view, tokens, max_tokens as nat) == (list@[0].end as int, list@[keep as int].start as int));
    }
    let mut kept: Vec<Message> = Vec::new();
    types::append_messages(&mut kept, &messages, 0, list[0].end);
    types::append_messages(&mut kept, &messages, list[keep].start, messages.len());
    proof {
        assert(view.subrange(0, list@[0].end as int) =~= view.take(list@[0].end as int));
        assert(view.subrange(list@[keep as int].start as int, view.len() as int) =~= view.skip(
            list@[keep as int].start as int,
        ));
        assert(types::messages_view(kept@) =~= view.take(list@[0].end as int) + view.skip(
            list@[keep as int].start as int,
        ));
    }
    kept
}

proof fn lemma_two_groups(tokens: Seq<nat>, all: Seq<(int, int)>, a: int, b: int, len: int)
    requires
        0 <= a < b < all.len(),
        forall|i: int|
            0 <= i < all.len() ==> 0 <= (#[trigger] all[i]).0 < all[i].1 && all[i].1 <= len,
        forall|i: int, j: int|
            0 <= i && j == i + 1 && j < all.len() ==> (#[trigger] all[i]).1 == (#[trigger] all[j]).0,
    ensures
        group_tokens(tokens, all[a]) + group_tokens(tokens, all[b]) <= sum(tokens, 0, len),
{
    lemma_group_order(all, a, b);
    lemma_sum_split(tokens, 0, all[a].0, len);
    lemma_sum_split(tokens, all[a].0, all[a].1, len);
    lemma_sum_split(tokens, all[a].1, all[b].0, len);
    lemma_sum_split(tokens, all[b].0, all[b].1, len);
}

proof fn lemma_group_order(all: Seq<(int, int)>, a: int, b: int)
    requires
        0 <= a < b < all.len(),
        forall|i: int| 0 <= i < all.len() ==> 0 <= (#[trigger] all[i]).0 < all[i].1,
        forall|i: int, j: int|
            0 <= i && j == i + 1 && j < all.len() ==> (#[trigger] all[i]).1 == (#[trigger] all[j]).0,
    ensures
        all[a].1 <= all[b].0,
    decreases b - a,
{
    if b > a + 1 {
        lemma_group_order(all, a, b - 1);
        assert(all[b - 1].1 == all[b].0);
    }
}

// ==================== What holds of every trimming ====================

/// Trimming cuts between groups: the first group stays whole, and what follows
/// the gap starts where a group starts and reaches to the end.
pub proof fn lemma_cut_between_groups(messages: Seq<MessageView>, tokens: Seq<nat>, budget: nat) -> (
    k: int)
    requires
        too_long(messages, tokens, budget),
    ensures
        1 <= k < groups(messages, 0).len(),
        cut(messages, tokens, budget) == (groups(messages, 0)[0].1, groups(messages, 0)[k].0),
        0 < groups(messages, 0)[0].1 <= groups(messages, 0)[k].0 < messages.len(),
{
    lemma_groups_cover(messages, 0);
    let all = groups(messages, 0);
    let k = keep_from(all, tokens, all.len() - 1, room_between(all, tokens, budget));
    lemma_keep_from(all, tokens, all.len() - 1, room_between(all, tokens, budget));
    lemma_group_order(all, 0, k);
    k
}

/// Whether two messages belong to the same group.
pub open spec fn same_group(messages: Seq<MessageView>, i: int, j: int) -> bool {
    exists|g: int|
        0 <= g < groups(messages, 0).len() && (#[trigger] groups(messages, 0)[g]).0 <= i
            && groups(messages, 0)[g].0 <= j && i < groups(messages, 0)[g].1 && j < groups(
            messages,
            0,
        )[g].1
}

/// Whether every tool call is answered within the group of the message that
/// requests it.
pub open spec fn answered_in_groups(messages: Seq<MessageView>) -> bool {
    forall|i: int, k: int|
        0 <= i < messages.len() && 0 <= k < run::requested_by(messages[i]).len() ==> exists|j: int|
            0 <= j < messages.len() && same_group(messages, i, j) && (
            #[trigger] messages[j]).tool_call_id == Some(
                (#[trigger] run::requested_by(messages[i])[k]).id,
            )
}

proof fn lemma_on_one_side(
    messages: Seq<MessageView>,
    tokens: Seq<nat>,
    budget: nat,
    i: int,
    j: int,
)
    requires
        too_long(messages, tokens, budget),
        same_group(messages, i, j),
    ensures
        ({
            let (end, start) = cut(messages, tokens, budget);
            &&& i < end <==> j < end
            &&& i >= start <==> j >= start
        }),
{
    let all = groups(messages, 0);
    lemma_groups_cover(messages, 0);
    let k = lemma_cut_between_groups(messages, tokens, budget);
    let g = choose|g: int|
        0 <= g < all.len() && (#[trigger] all[g]).0 <= i && all[g].0 <= j && i < all[g].1 && j
            < all[g].1;
    if g > 0 {
        lemma_group_order(all, 0, g);
    }
    if g < k {
        lemma_group_order(all, g, k);
    } else if k < g {
        lemma_group_order(all, k, g);
    }
}

/// Trimming a history whose tool calls are answered where they are requested
/// leaves no tool call unanswered.
pub proof fn lemma_trimmed_history_is_balanced(
    messages: Seq<MessageView>,
    tokens: Seq<nat>,
    budget: nat,
)
    requires
        answered_in_groups(messages),
    ensures
        run::balanced(trimmed_history(messages, tokens, budget)),
{
    let kept = trimmed_history(messages, tokens, budget);
    if too_long(messages, tokens, budget) {
        let (end, start) = cut(messages, tokens, budget);
        let at = lemma_cut_between_groups(messages, tokens, budget);
        assert forall|i: int, k: int|
            0 <= i < kept.len() && 0 <= k < run::requested_by(kept[i]).len() implies run::answered(
            kept,
            (#[trigger] run::requested_by(kept[i])[k]).id,
        ) by {
            let from = if i < end {
                i
            } else {
                i - end + start
            };
            assert(kept[i] == messages[from]);
            let id = run::requested_by(messages[from])[k].id;
            let j = choose|j: int|
                0 <= j < messages.len() && same_group(messages, from, j) && (
                #[trigger] messages[j]).tool_call_id == Some(id);
            lemma_on_one_side(messages, tokens, budget, from, j);
            let to = if j < end {
                j
            } else {
                j - start + end
            };
            assert(kept[to] == messages[j]);
        }
    } else {
        assert forall|i: int, k: int|
            0 <= i < kept.len() && 0 <= k < run::requested_by(kept[i]).len() implies run::answered(
            kept,
            (#[trigger] run::requested_by(kept[i])[k]).id,
        ) by {
            let id = run::requested_by(messages[i])[k].id;
            let j = choose|j: int|
                0 <= j < messages.len() && same_group(messages, i, j) && (
                #[trigger] messages[j]).tool_call_id == Some(id);
            assert(kept[j].tool_call_id == Some(id));
        }
    }
}

proof fn lemma_kept_fits(all: Seq<(int, int)>, tokens: Seq<nat>, at: int, room: int, len: int)
    requires
        1 <= at < all.len(),
        0 <= room,
        forall|i: int|
            0 <= i < all.len() ==> 0 <= (#[trigger] all[i]).0 < all[i].1 && all[i].1 <= len,
        forall|i: int, j: int|
            0 <= i && j == i + 1 && j < all.len() ==> (#[trigger] all[i]).1 == (#[trigger] all[j]).0,
    ensures
        sum(tokens, all[keep_from(all, tokens, at, room)].0, all[at].0) <= room,
        1 <= keep_from(all, tokens, at, room) <= at,
    decreases at,
{
    if at > 1 && group_tokens(tokens, all[at - 1]) <= room {
        let left = room - group_tokens(tokens, all[at - 1]);
        lemma_kept_fits(all, tokens, at - 1, left, len);
        let k = keep_from(all, tokens, at - 1, left);
        assert(all[at - 1].1 == all[at].0);
        if k < at - 1 {
            lemma_group_order(all, k, at - 1);
        }
        lemma_sum_split(tokens, all[k].0, all[at - 1].0, all[at].0);
    }
}

/// What a trimmed history takes is within the budget, unless the first and the
/// last group, which are always kept, take more than that by themselves.
pub proof fn lemma_trimmed_history_fits(
    messages: Seq<MessageView>,
    tokens: Seq<nat>,
    budget: nat,
)
    requires
        too_long(messages, tokens, budget),
    ensures
        ({
            let (end, start) = cut(messages, tokens, budget);
            let all = groups(messages, 0);
            let ends = group_tokens(tokens, all[0]) + group_tokens(tokens, all.last());
            sum(tokens, 0, end) + sum(tokens, start, messages.len() as int) <= if ends <= budget {
                budget
            } else {
                ends
            }
        }),
{
    lemma_groups_cover(messages, 0);
    let all = groups(messages, 0);
    let room = room_between(all, tokens, budget);
    let last = all.len() - 1;
    lemma_kept_fits(all, tokens, last, room, messages.len() as int);
    let k = keep_from(all, tokens, last, room);
    if k < last {
        lemma_group_order(all, k, last);
    }
    lemma_sum_split(tokens, all[k].0, all[last].0, messages.len() as int);
}

proof fn lemma_one_more_is_too_much(
    all: Seq<(int, int)>,
    tokens: Seq<nat>,
    at: int,
    room: int,
    len: int,
)
    requires
        1 <= at < all.len(),
        forall|i: int|
            0 <= i < all.len() ==> 0 <= (#[trigger] all[i]).0 < all[i].1 && all[i].1 <= len,
        forall|i: int, j: int|
            0 <= i && j == i + 1 && j < all.len() ==> (#[trigger] all[i]).1 == (#[trigger] all[j]).0,
    ensures
        1 <= keep_from(all, tokens, at, room) <= at,
        keep_from(all, tokens, at, room) > 1 ==> sum(
            tokens,
            all[keep_from(all, tokens, at, room) - 1].0,
            all[at].0,
        ) > room,
    decreases at,
{
    if at > 1 {
        assert(all[at - 1].1 == all[at].0);
        if group_tokens(tokens, all[at - 1]) <= room {
            let left = room - group_tokens(tokens, all[at - 1]);
            lemma_one_more_is_too_much(all, tokens, at - 1, left, len);
            let k = keep_from(all, tokens, at - 1, left);
            if k > 1 {
                lemma_group_order(all, k - 1, at - 1);
                lemma_sum_split(tokens, all[k - 1].0, all[at - 1].0, all[at].0);
            }
        }
    }
}

/// A trimmed history keeps as many of the recent groups as fit: with one group
/// more, or with any more, it would exceed the budget.
pub proof fn lemma_trimming_keeps_as_many_as_fit(
    messages: Seq<MessageView>,
    tokens: Seq<nat>,
    budget: nat,
    i: int,
)
    requires
        too_long(messages, tokens, budget),
        0 < i < groups(messages, 0).len(),
        groups(messages, 0)[i].0 < cut(messages, tokens, budget).1,
    ensures
        sum(tokens, 0, cut(messages, tokens, budget).0) + sum(
            tokens,
            groups(messages, 0)[i].0,
            messages.len() as int,
        ) > budget,
{
    lemma_groups_cover(messages, 0);
    let all = groups(messages, 0);
    let len = messages.len() as int;
    let room = room_between(all, tokens, budget);
    let last = all.len() - 1;
    lemma_one_more_is_too_much(all, tokens, last, room, len);
    let k = keep_from(all, tokens, last, room);
    if k < i {
        lemma_group_order(all, k, i);
    }
    assert(i < k);
    lemma_group_order(all, k - 1, last);
    if i < k - 1 {
        lemma_group_order(all, i, k - 1);
    }
    lemma_sum_split(tokens, all[i].0, all[k - 1].0, len);
    lemma_sum_split(tokens, all[k - 1].0, all[last].0, len);
}

// ==================== Rounds ====================

/// Whether the message at `at` goes on with a round: it is a tool result, and
/// nothing but tool results stands between it and a message of the assistant
/// that requests tools.
pub open spec fn goes_on(messages: Seq<MessageView>, at: int) -> bool {
    0 < at < messages.len() && messages[at].role == MessageRole::Tool && exists|i: int|
        0 <= i < at && (#[trigger] messages[i]).role == MessageRole::Assistant
            && messages[i].tool_calls is Some && forall|j: int|
            i < j < at ==> (#[trigger] messages[j]).role == MessageRole::Tool
}

/// Whether a history can be cut before the message at `at`.
pub open spec fn cuttable(messages: Seq<MessageView>, at: int) -> bool {
    0 <= at < messages.len() && !goes_on(messages, at)
}

proof fn lemma_group_around(all: Seq<(int, int)>, at: int, from: int) -> (g: int)
    requires
        0 <= from < all.len(),
        all[from].0 <= at < all.last().1,
        forall|i: int, j: int|
            0 <= i && j == i + 1 && j < all.len() ==> (#[trigger] all[i]).1 == (#[trigger] all[j]).0,
    ensures
        from <= g < all.len(),
        all[g].0 <= at < all[g].1,
    decreases all.len() - from,
{
    if at < all[from].1 {
        from
    } else {
        assert(all[from].1 == all[from + 1].0);
        lemma_group_around(all, at, from + 1)
    }
}

proof fn lemma_start_does_not_go_on(messages: Seq<MessageView>, g: int)
    requires
        0 <= g < groups(messages, 0).len(),
    ensures
        cuttable(messages, groups(messages, 0)[g].0),
    decreases g,
{
    let all = groups(messages, 0);
    lemma_groups_cover(messages, 0);
    let at = all[g].0;
    if g > 0 && goes_on(messages, at) {
        let s = all[g - 1].0;
        assert(all[g - 1].1 == at);
        lemma_start_does_not_go_on(messages, g - 1);
        lemma_results_end(messages, s + 1);
        let i = choose|i: int|
            0 <= i < at && (#[trigger] messages[i]).role == MessageRole::Assistant
                && messages[i].tool_calls is Some && forall|j: int|
                i < j < at ==> (#[trigger] messages[j]).role == MessageRole::Tool;
        if i < s {
            assert(messages[s].role == MessageRole::Tool);
            assert(goes_on(messages, s));
        }
    }
}

/// Groups start exactly where a history can be cut: everywhere but in front of
/// a tool result that goes on with a round.
pub proof fn lemma_groups_start_where_no_round_goes_on(messages: Seq<MessageView>, at: int)
    requires
        0 <= at < messages.len(),
    ensures
        cuttable(messages, at) <==> exists|g: int|
            0 <= g < groups(messages, 0).len() && (#[trigger] groups(messages, 0)[g]).0 == at,
{
    let all = groups(messages, 0);
    lemma_groups_cover(messages, 0);
    let g = lemma_group_around(all, at, 0);
    if all[g].0 < at {
        let s = all[g].0;
        lemma_results_end(messages, s + 1);
        assert(messages[s].role == MessageRole::Assistant && messages[s].tool_calls is Some);
        assert(goes_on(messages, at));
    }
    if exists|g: int| 0 <= g < all.len() && (#[trigger] all[g]).0 == at {
        let h = choose|h: int| 0 <= h < all.len() && (#[trigger] all[h]).0 == at;
        lemma_start_does_not_go_on(messages, h);
    }
}

/// Trimming drops whole rounds and nothing else: one stretch of messages behind
/// the first round, between two places where the history can be cut. Nothing is
/// dropped from a history that fits. What is dropped ends before the last
/// round; what is kept fits the budget, unless the first and the last round do
/// not fit by themselves; and from any earlier place on it would not fit.
pub proof fn lemma_trimming_drops_whole_rounds(
    messages: Seq<MessageView>,
    tokens: Seq<nat>,
    budget: nat,
) -> (gap: (int, int))
    requires
        messages.len() > 0,
    ensures
        0 < gap.0 <= gap.1 <= messages.len(),
        gap.0 < gap.1 ==> gap.1 < messages.len(),
        gap.0 == messages.len() || cuttable(messages, gap.0),
        gap.1 == messages.len() || cuttable(messages, gap.1),
        forall|at: int| 0 < at < gap.0 ==> !#[trigger] cuttable(messages, at),
        trimmed_history(messages, tokens, budget) == messages.take(gap.0) + messages.skip(gap.1),
        sum(tokens, 0, messages.len() as int) <= budget ==> gap.0 == gap.1,
        forall|at: int|
            gap.0 <= at < gap.1 && #[trigger] cuttable(messages, at) ==> sum(tokens, 0, gap.0) + sum(
                tokens,
                at,
                messages.len() as int,
            ) > budget,
        forall|last: int|
            #[trigger] cuttable(messages, last) && (forall|at: int|
                last < at < messages.len() ==> !#[trigger] cuttable(messages, at)) ==> {
                ||| sum(tokens, 0, gap.0) + sum(tokens, gap.1, messages.len() as int) <= budget
                ||| sum(tokens, gap.1, messages.len() as int) <= sum(
                    tokens,
                    last,
                    messages.len() as int,
                )
            },
{
    let all = groups(messages, 0);
    let len = messages.len() as int;
    lemma_groups_cover(messages, 0);
    let end = all[0].1;
    let start = if too_long(messages, tokens, budget) {
        cut(messages, tokens, budget).1
    } else {
        end
    };
    if all.len() > 1 {
        assert(all[0].1 == all[1].0);
        lemma_start_does_not_go_on(messages, 1);
    }
    assert forall|at: int| 0 < at < end implies !#[trigger] cuttable(messages, at) by {
        lemma_groups_start_where_no_round_goes_on(messages, at);
        if cuttable(messages, at) {
            let g = choose|g: int| 0 <= g < all.len() && (#[trigger] all[g]).0 == at;
            if g > 0 {
                lemma_group_order(all, 0, g);
            }
        }
    }
    let k = if too_long(messages, tokens, budget) {
        lemma_cut_between_groups(messages, tokens, budget)
    } else {
        1
    };
    if too_long(messages, tokens, budget) {
        lemma_start_does_not_go_on(messages, k);
        lemma_trimmed_history_fits(messages, tokens, budget);
    } else {
        assert(messages.take(end) + messages.skip(end) =~= messages);
    }
    assert forall|at: int|
        end <= at < start && #[trigger] cuttable(messages, at) implies sum(tokens, 0, end) + sum(
        tokens,
        at,
        len,
    ) > budget by {
        lemma_groups_start_where_no_round_goes_on(messages, at);
        let g = choose|g: int| 0 <= g < all.len() && (#[trigger] all[g]).0 == at;
        lemma_trimming_keeps_as_many_as_fit(messages, tokens, budget, g);
    }
    assert forall|last: int|
        #[trigger] cuttable(messages, last) && (forall|at: int|
            last < at < messages.len() ==> !#[trigger] cuttable(messages, at)) implies {
        ||| sum(tokens, 0, end) + sum(tokens, start, len) <= budget
        ||| sum(tokens, start, len) <= sum(tokens, last, len)
    } by {
        let n = all.len() - 1;
        lemma_start_does_not_go_on(messages, n);
        lemma_groups_start_where_no_round_goes_on(messages, last);
        let g = choose|g: int| 0 <= g < all.len() && (#[trigger] all[g]).0 == last;
        if g < n {
            lemma_group_order(all, g, n);
        }
        assert(last == all[n].0);
        lemma_sum_split(tokens, 0, start, len);
        lemma_sum_split(tokens, 0, end, len);
        if !too_long(messages, tokens, budget) {
            if sum(tokens, 0, len) > budget {
                assert(all.len() <= 2);
                if start < len && n == 0 {
                    assert(false);
                }
            } else {
                lemma_sum_split(tokens, 0, end, len);
            }
        }
    }
    (end, start)
}

/// Whether the tool result at `at` stands behind the message of the assistant
/// that requests its call, with nothing but tool results in between.
pub open spec fn behind_its_request(messages: Seq<MessageView>, at: int) -> bool {
    exists|i: int|
        0 <= i < at && (#[trigger] messages[i]).role == MessageRole::Assistant && requests(
            messages[i],
            messages[at].tool_call_id,
        ) && forall|j: int| i < j < at ==> (#[trigger] messages[j]).role == MessageRole::Tool
}

/// Whether a message requests the tool call `id`.
pub open spec fn requests(message: MessageView, id: Option<Seq<char>>) -> bool {
    message.tool_calls matches Some(calls) && exists|k: int|
        0 <= k < calls.len() && Some((#[trigger] calls[k]).id) == id
}

proof fn lemma_gap_orphans_none(messages: Seq<MessageView>, gap: (int, int), at: int, from: int)
    requires
        0 < gap.0 <= gap.1 <= messages.len(),
        gap.1 == messages.len() || cuttable(messages, gap.1),
        0 <= at < gap.0 && from == at || gap.0 <= at && from == at - gap.0 + gap.1 && from
            < messages.len(),
        messages[from].role == MessageRole::Tool,
        behind_its_request(messages, from),
    ensures
        behind_its_request(messages.take(gap.0) + messages.skip(gap.1), at),
{
    let kept = messages.take(gap.0) + messages.skip(gap.1);
    let i = choose|i: int|
        0 <= i < from && (#[trigger] messages[i]).role == MessageRole::Assistant && requests(
            messages[i],
            messages[from].tool_call_id,
        ) && forall|j: int| i < j < from ==> (#[trigger] messages[j]).role == MessageRole::Tool;
    assert(kept[at] == messages[from]);
    if at < gap.0 {
        assert(kept[i] == messages[i]);
        assert forall|j: int| i < j < at implies (#[trigger] kept[j]).role
            == MessageRole::Tool by {
            assert(kept[j] == messages[j]);
        }
    } else {
        if i < gap.1 {
            assert(messages[gap.1].role == MessageRole::Tool);
            assert(goes_on(messages, gap.1));
        }
        let to = i - gap.1 + gap.0;
        assert(kept[to] == messages[i]);
        assert forall|j: int| to < j < at implies (#[trigger] kept[j]).role
            == MessageRole::Tool by {
            assert(kept[j] == messages[j - gap.0 + gap.1]);
        }
    }
}

/// In a trimmed history every tool result stands behind the message that
/// requests its call, if that holds of the history before.
pub proof fn lemma_trimming_orphans_no_tool_result(
    messages: Seq<MessageView>,
    tokens: Seq<nat>,
    budget: nat,
    at: int,
)
    requires
        forall|j: int|
            0 <= j < messages.len() && (#[trigger] messages[j]).role == MessageRole::Tool
                ==> behind_its_request(messages, j),
        0 <= at < trimmed_history(messages, tokens, budget).len(),
        trimmed_history(messages, tokens, budget)[at].role == MessageRole::Tool,
    ensures
        behind_its_request(trimmed_history(messages, tokens, budget), at),
{
    if messages.len() > 0 {
        let gap = lemma_trimming_drops_whole_rounds(messages, tokens, budget);
        let from = if at < gap.0 {
            at
        } else {
            at - gap.0 + gap.1
        };
        assert(trimmed_history(messages, tokens, budget)[at] == messages[from]);
        lemma_gap_orphans_none(messages, gap, at, from);
    }
}

/// Whether the call `id` that the message at `i` requests is answered in the
/// tool results directly behind that message.
pub open spec fn answered_behind(messages: Seq<MessageView>, i: int, id: Seq<char>) -> bool {
    exists|at: int|
        i < at < messages.len() && (#[trigger] messages[at]).tool_call_id == Some(id)
            && forall|j: int| i < j <= at ==> (#[trigger] messages[j]).role == MessageRole::Tool
}

proof fn lemma_gap_leaves_none_open(
    messages: Seq<MessageView>,
    gap: (int, int),
    i: int,
    from: int,
    id: Seq<char>,
)
    requires
        0 < gap.0 <= gap.1 <= messages.len(),
        gap.0 == messages.len() || cuttable(messages, gap.0),
        0 <= i < gap.0 && from == i || gap.0 <= i && from == i - gap.0 + gap.1 && from
            < messages.len(),
        messages[from].role == MessageRole::Assistant,
        messages[from].tool_calls is Some,
        answered_behind(messages, from, id),
    ensures
        answered_behind(messages.take(gap.0) + messages.skip(gap.1), i, id),
{
    let kept = messages.take(gap.0) + messages.skip(gap.1);
    let at = choose|at: int|
        from < at < messages.len() && (#[trigger] messages[at]).tool_call_id == Some(id)
            && forall|j: int| from < j <= at ==> (#[trigger] messages[j]).role == MessageRole::Tool;
    if i < gap.0 {
        if at >= gap.0 {
            assert(messages[gap.0].role == MessageRole::Tool);
            assert(goes_on(messages, gap.0));
        }
        assert(kept[at] == messages[at]);
        assert forall|j: int| i < j <= at implies (#[trigger] kept[j]).role
            == MessageRole::Tool by {
            assert(kept[j] == messages[j]);
        }
    } else {
        let to = at - gap.1 + gap.0;
        assert(kept[to] == messages[at]);
        assert forall|j: int| i < j <= to implies (#[trigger] kept[j]).role
            == MessageRole::Tool by {
            assert(kept[j] == messages[j - gap.0 + gap.1]);
        }
    }
}

/// In a trimmed history every tool call is answered directly behind the message
/// of the assistant that requests it, if that holds of the history before.
pub proof fn lemma_trimming_leaves_no_call_open(
    messages: Seq<MessageView>,
    tokens: Seq<nat>,
    budget: nat,
    i: int,
    k: int,
)
    requires
        forall|m: int, n: int|
            0 <= m < messages.len() && 0 <= n < run::requested_by(messages[m]).len() ==> {
                &&& messages[m].role == MessageRole::Assistant
                &&& answered_behind(messages, m, (#[trigger] run::requested_by(messages[m])[n]).id)
            },
        0 <= i < trimmed_history(messages, tokens, budget).len(),
        0 <= k < run::requested_by(trimmed_history(messages, tokens, budget)[i]).len(),
    ensures
        answered_behind(
            trimmed_history(messages, tokens, budget),
            i,
            run::requested_by(trimmed_history(messages, tokens, budget)[i])[k].id,
        ),
{
    if messages.len() > 0 {
        let gap = lemma_trimming_drops_whole_rounds(messages, tokens, budget);
        let from = if i < gap.0 {
            i
        } else {
            i - gap.0 + gap.1
        };
        assert(trimmed_history(messages, tokens, budget)[i] == messages[from]);
        let id = run::requested_by(messages[from])[k].id;
        assert(answered_behind(messages, from, id));
        lemma_gap_leaves_none_open(messages, gap, i, from, id);
    }
}

/// What messages take together is what they take one by one.
pub proof fn lemma_tokens_add_up(tokens: Seq<nat>, from: int, mid: int, to: int)
    requires
        0 <= from <= mid <= to <= tokens.len(),
    ensures
        sum(tokens, from, from) == 0,
        from < to ==> sum(tokens, from, to) == tokens[from] + sum(tokens, from + 1, to),
        sum(tokens, from, to) == sum(tokens, from, mid) + sum(tokens, mid, to),
{
    lemma_sum_split(tokens, from, mid, to);
    if from < to {
        lemma_sum_split(tokens, from, from + 1, to);
        reveal_with_fuel(sum, 2);
    }
}

/// A message takes what its content takes and, for each of its tool calls, what
/// the name and the arguments take and ten more.
pub proof fn lemma_every_call_is_counted(counts: MessageTokens, at: int)
    ensures
        counts.calls@.len() == 0 ==> counts.total() == counts.content,
        0 <= at < counts.calls@.len() ==> counts.total() == counts.content + call_tokens(
            counts.calls@.remove(at),
        ) + counts.calls@[at].0 + counts.calls@[at].1 + 10,
{
    if 0 <= at < counts.calls@.len() {
        lemma_call_counts(counts.calls@, at);
    }
}

proof fn lemma_call_counts(calls: Seq<(usize, usize)>, at: int)
    requires
        0 <= at < calls.len(),
    ensures
        call_tokens(calls) == call_tokens(calls.remove(at)) + calls[at].0 + calls[at].1 + 10,
    decreases calls.len(),
{
    let rest = calls.remove(at);
    if at == calls.len() - 1 {
        assert(rest =~= calls.drop_last());
    } else {
        lemma_call_counts(calls.drop_last(), at);
        assert(rest.drop_last() =~= calls.drop_last().remove(at));
        assert(rest.last() == calls.last());
    }
}

proof fn lemma_spacing_is_fine(n: nat)
    requires
        n >= BITS_53,
    ensures
        spacing(n) * 4503599627370496 <= n,
    decreases n,
{
    if n / 2 >= BITS_53 {
        lemma_spacing_is_fine(n / 2);
    } else {
        assert(spacing(n / 2) == 1);
    }
}

proof fn lemma_rounding_is_near(n: nat)
    ensures
        n < BITS_53 ==> rounded(n) == n,
        (rounded(n) - n) * 9007199254740992 <= n,
        (n - rounded(n)) * 9007199254740992 <= n,
{
    let unit = spacing(n);
    lemma_spacing_bounds(n);
    if n < BITS_53 {
        assert(n / 1 == n && n % 1 == 0 && n * 1 == n);
    } else {
        lemma_spacing_is_fine(n);
        let low = n / unit;
        let rest = n % unit;
        assert(n == low * unit + rest && 0 <= rest < unit && (low + 1) * unit == low * unit + unit)
            by (nonlinear_arith)
            requires
                unit >= 1,
                low == n / unit,
                rest == n % unit,
        ;
        let r = rounded(n);
        assert(r == n - rest || r == n - rest + unit);
        assert(2 * (r - n) <= unit && 2 * (n - r) <= unit);
    }
}

/// A prompt may take seven tenths of the context window, to the token: it is no
/// more than that, and by no more than one token less.
pub proof fn lemma_the_budget_is_seven_tenths(context_length: usize)
    requires
        context_length <= 500_000_000_000_000,
    ensures
        10 * prompt_budget(context_length) <= 7 * context_length,
        7 * context_length <= 10 * prompt_budget(context_length) + 10,
{
    let n = context_length as nat;
    lemma_rounding_is_near(n);
    let product = n * SEVEN_TENTHS as nat;
    assert(rounded(n) == n);
    lemma_rounding_is_near(product);
    let r = rounded(product);
    assert(10 * product == 7 * n * 9007199254740992 - 4 * n) by (nonlinear_arith)
        requires
            product == n * 6305039478318694,
    ;
    let budget = r / BITS_53 as nat;
    assert(budget * 9007199254740992 <= r < (budget + 1) * 9007199254740992);
    assert(10 * product <= 7 * n * 9007199254740992);
    let slack = if r >= product {
        r - product
    } else {
        product - r
    };
    assert(slack * 9007199254740992 <= product);
    assert(10 * slack <= 7 * n) by (nonlinear_arith)
        requires
            slack * 9007199254740992 <= product,
            10 * product <= 7 * n * 9007199254740992,
    ;
    assert(10 * budget * 9007199254740992 <= 7 * n * 9007199254740992 + 3 * n);
    assert(10 * (budget + 1) * 9007199254740992 > 7 * n * 9007199254740992 - 11 * n);
    assert(budget <= n);
}

/// A history is trimmed by the tokens of its messages, one for one.
pub proof fn lemma_every_message_is_counted(counts: Seq<MessageTokens>, i: int)
    ensures
        totals(counts).len() == counts.len(),
        0 <= i < counts.len() ==> totals(counts)[i] == counts[i].total(),
{
}

/// What is counted of a message is its content and, of each of its calls, the
/// name and the arguments, in order.
pub proof fn lemma_every_text_is_counted(message: MessageView, i: int)
    ensures
        message.tool_calls is None ==> calls_of(message).len() == 0,
        message.tool_calls matches Some(calls) ==> {
            &&& call_texts(calls_of(message)).len() == calls.len()
            &&& 0 <= i < calls.len() ==> call_texts(calls_of(message))[i] == (
                types::or_empty(calls[i].called_name()),
                types::or_empty(calls[i].called_arguments()),
            )
        },
{
}

} // verus!
