//! The pieces that tool results are made of.

use crate::json::Json;
use crate::json::JsonTree;
use crate::chat_tools::scope;
use crate::chat_tools::scope::TagTree;
use crate::chat_tools::scope::TagWithCount;
use crate::text;
use vstd::prelude::*;

verus! {

/// How much of a source is stored with a citation.
pub const EXCERPT_LEN: usize = 200;

/// The lines that a call for content returns when it does not say how many.
pub const READ_DEFAULT_LIMIT: usize = 500;

/// The most lines that a call for content returns.
pub const READ_MAX_LIMIT: usize = 2000;

/// Tags named per level before the rest is summarized as a count.
pub const MAX_TAGS_PER_LEVEL: usize = 15;

/// Levels of the tag tree that one listing shows.
pub const TAG_TREE_DEPTH: usize = 2;

/// The first characters of a text, as many as are stored with a citation.
pub open spec fn excerpt_of(text: Seq<char>) -> Seq<char> {
    if text.len() <= EXCERPT_LEN {
        text
    } else {
        text.take(EXCERPT_LEN as int)
    }
}

pub fn excerpt(text: &str) -> (start: String)
    ensures
        start@ == excerpt_of(text@),
{
    let chars = text::chars_of(text);
    if chars.len() <= EXCERPT_LEN {
        return text.to_owned();
    }
    let start = text::string_of(&chars, 0, EXCERPT_LEN);
    assert(start@ =~= text@.take(EXCERPT_LEN as int));
    start
}

/// What a tool says where the scope does not let it read something. It names
/// the boundary without describing what is behind it.
pub open spec fn refusal(subject: Seq<char>) -> Seq<char> {
    subject
        + " is outside this conversation's scope, so it can't be read here. The scope is fixed for this conversation — work from what is in scope, or tell the user what you would need them to add."@
}

pub fn out_of_scope(subject: &str) -> (text: String)
    ensures
        text@ == refusal(subject@),
        text@ == subject@
            + " is outside this conversation's scope, so it can't be read here. The scope is fixed for this conversation — work from what is in scope, or tell the user what you would need them to add."@,
{
    subject.to_owned().concat(
        " is outside this conversation's scope, so it can't be read here. The scope is fixed for this conversation — work from what is in scope, or tell the user what you would need them to add.",
    )
}

/// The number that leads a tool result, for the model to cite; nothing where
/// the evidence is not citable.
pub open spec fn lead(number: Option<i32>) -> Seq<char> {
    match number {
        Some(number) => "["@ + text::signed_decimal(number as int) + "] "@,
        None => Seq::empty(),
    }
}

pub fn citation_marker(number: Option<i32>) -> (marker: String)
    ensures
        marker@ == lead(number),
{
    match number {
        Some(number) => {
            let mut marker = String::from_str("[");
            text::push_signed(&mut marker, number as i64);
            marker.append("] ");
            marker
        },
        None => String::new(),
    }
}

/// The number of a field of the arguments, where it is one without a sign.
pub open spec fn unsigned_field(args: JsonTree, key: Seq<char>) -> Option<u64> {
    match args.field(key) {
        Some(value) => value.unsigned(),
        None => None,
    }
}

/// The window of lines that arguments ask for: the first line, and how many.
pub open spec fn paging(args: JsonTree) -> (usize, usize) {
    let offset = match unsigned_field(args, "offset"@) {
        Some(offset) => offset as usize,
        None => 0,
    };
    let limit = match unsigned_field(args, "limit"@) {
        Some(limit) => if (limit as usize) < 1 {
            1
        } else if limit as usize > READ_MAX_LIMIT {
            READ_MAX_LIMIT
        } else {
            limit as usize
        },
        None => READ_DEFAULT_LIMIT,
    };
    (offset, limit)
}

pub fn paging_args(args: &Json) -> (window: (usize, usize))
    ensures
        window == paging(args@),
{
    let offset: usize = match args.get("offset") {
        Some(value) => match value.as_u64() {
            Some(offset) => #[verifier::truncate] (offset as usize),
            None => 0,
        },
        None => 0,
    };
    let limit: usize = match args.get("limit") {
        Some(value) => match value.as_u64() {
            Some(limit) => {
                let limit: usize = #[verifier::truncate] (limit as usize);
                if limit < 1 {
                    1
                } else if limit > READ_MAX_LIMIT {
                    READ_MAX_LIMIT
                } else {
                    limit
                }
            },
            None => READ_DEFAULT_LIMIT,
        },
        None => READ_DEFAULT_LIMIT,
    };
    (offset, limit)
}

/// One window of content, split into what the model reads and what a citation
/// quotes.
#[derive(Debug, PartialEq)]
pub struct LineWindow {
    /// What the model is shown: the lines, led by how to read the rest where
    /// the content did not fit.
    pub rendered: String,
    /// The lines alone.
    pub body: String,
}

/// Where the window of `limit` lines from `offset` on ends, of `total` lines.
pub open spec fn window_end(offset: int, limit: int, total: int) -> int {
    if offset + limit <= total {
        offset + limit
    } else {
        total
    }
}

/// The lines of a window.
pub open spec fn window_body(content: Seq<char>, offset: int, limit: int) -> Seq<char> {
    let lines = text::lines(content);
    if offset >= lines.len() {
        Seq::empty()
    } else {
        text::joined(
            lines.subrange(offset, window_end(offset, limit, lines.len() as int)),
            "\n"@,
        )
    }
}

/// What a model is shown of a window. Content that fits comes back as it is.
pub open spec fn window_shown(content: Seq<char>, offset: int, limit: int, tool: Seq<char>) -> Seq<
    char,
> {
    let total = text::lines(content).len() as int;
    let end = window_end(offset, limit, total);
    let body = window_body(content, offset, limit);
    if total == 0 {
        Seq::empty()
    } else if offset >= total {
        "[offset="@ + text::decimal(offset as nat) + " is past end of content ("@ + text::decimal(
            total as nat,
        ) + " total lines)]"@
    } else if offset == 0 && end == total {
        body
    } else if end < total {
        "[lines "@ + text::decimal((offset + 1) as nat) + "-"@ + text::decimal(end as nat)
            + " of "@ + text::decimal(total as nat) + ". "@ + text::decimal((total - end) as nat)
            + " more lines. Call "@ + tool + " again with offset="@ + text::decimal(end as nat)
            + " to continue.]\n"@ + body
    } else {
        "[lines "@ + text::decimal((offset + 1) as nat) + "-"@ + text::decimal(end as nat)
            + " of "@ + text::decimal(total as nat) + " (end of content).]\n"@ + body
    }
}

/// A window of `limit` lines from `offset` on, headed by how to read the rest
/// through `tool`.
pub fn line_window(content: &str, offset: usize, limit: usize, tool: &str) -> (window: LineWindow)
    ensures
        window.rendered@ == window_shown(content@, offset as int, limit as int, tool@),
        window.body@ == window_body(content@, offset as int, limit as int),
{
    let lines = text::split_lines(content);
    let total: usize = lines.len();
    if total == 0 {
        return LineWindow { rendered: String::new(), body: String::new() };
    }
    if offset >= total {
        let mut notice = String::from_str("[offset=");
        text::push_decimal(&mut notice, offset as u64);
        notice.append(" is past end of content (");
        text::push_decimal(&mut notice, total as u64);
        notice.append(" total lines)]");
        return LineWindow { rendered: notice, body: String::new() };
    }
    let end: usize = if limit <= total - offset {
        offset + limit
    } else {
        total
    };
    let body = text::join(&lines, offset, end, "\n");
    if offset == 0 && end == total {
        return LineWindow { rendered: body.clone(), body };
    }
    let mut rendered = String::from_str("[lines ");
    text::push_decimal(&mut rendered, offset as u64 + 1);
    rendered.append("-");
    text::push_decimal(&mut rendered, end as u64);
    rendered.append(" of ");
    text::push_decimal(&mut rendered, total as u64);
    if end < total {
        rendered.append(". ");
        text::push_decimal(&mut rendered, (total - end) as u64);
        rendered.append(" more lines. Call ");
        rendered.append(tool);
        rendered.append(" again with offset=");
        text::push_decimal(&mut rendered, end as u64);
        rendered.append(" to continue.]\n");
    } else {
        rendered.append(" (end of content).]\n");
    }
    rendered.append(body.as_str());
    LineWindow { rendered, body }
}

proof fn lemma_joined_split(parts: Seq<Seq<char>>, n: int, separator: Seq<char>)
    requires
        0 < n < parts.len(),
    ensures
        text::joined(parts, separator) == text::joined(parts.take(n), separator) + separator
            + text::joined(parts.skip(n), separator),
    decreases parts.len(),
{
    let left = parts.take(n);
    let right = parts.skip(n);
    if n == parts.len() - 1 {
        assert(parts.drop_last() =~= left);
        assert(right.len() == 1);
        assert(right[0] == parts.last());
    } else {
        lemma_joined_split(parts.drop_last(), n, separator);
        assert(parts.drop_last().take(n) =~= left);
        assert(parts.drop_last().skip(n) =~= right.drop_last());
        assert(right.last() == parts.last());
        assert(text::joined(parts, separator) =~= text::joined(left, separator) + separator
            + text::joined(right, separator));
    }
}

/// Reading on where a window ends loses nothing and repeats nothing: two
/// windows, the second from where the first one ends, hold what one window
/// over both holds.
pub proof fn lemma_reading_on_loses_nothing(content: Seq<char>, offset: int, limit: int, more: int)
    requires
        0 <= offset,
        0 < limit,
        0 < more,
        offset + limit < text::lines(content).len(),
    ensures
        window_end(offset, limit, text::lines(content).len() as int) == offset + limit,
        window_body(content, offset, limit + more) == window_body(content, offset, limit) + "\n"@
            + window_body(content, offset + limit, more),
{
    let lines = text::lines(content);
    let end = window_end(offset, limit + more, lines.len() as int);
    let all = lines.subrange(offset, end);
    lemma_joined_split(all, limit, "\n"@);
    assert(all.take(limit) =~= lines.subrange(offset, offset + limit));
    assert(all.skip(limit) =~= lines.subrange(offset + limit, end));
}

/// A window from the start that is long enough holds all the lines.
pub proof fn lemma_a_long_window_holds_everything(content: Seq<char>, limit: int)
    requires
        text::lines(content).len() <= limit,
    ensures
        window_body(content, 0, limit) == text::joined(text::lines(content), "\n"@),
{
    let lines = text::lines(content);
    assert(lines.subrange(0, lines.len() as int) =~= lines);
}

// ==================== The tag tree ====================

/// The indentation of a level.
pub open spec fn indent(depth: nat) -> Seq<char>
    decreases depth,
{
    if depth == 0 {
        Seq::empty()
    } else {
        indent((depth - 1) as nat) + "  "@
    }
}

/// A tag of a listing, with what is shown below it.
pub open spec fn tag_shown(node: TagTree, depth: nat) -> Seq<char>
    decreases node, 1int,
{
    "\n"@ + indent(depth + 1) + node.name + " ("@ + text::signed_decimal(node.atom_count as int)
        + " atom"@ + (if node.atom_count == 1 {
        ""@
    } else {
        "s"@
    }) + ", tag_id: "@ + node.id + ")"@ + (if depth + 1 < TAG_TREE_DEPTH {
        level_shown(node.children, depth + 1)
    } else if node.children_total > 0 {
        "\n"@ + indent(depth + 1) + "  ("@ + text::signed_decimal(node.children_total as int)
            + " sub-tags — call list_tags with parent_id \""@ + node.id + "\")"@
    } else {
        ""@
    })
}

/// The first `n` tags of a level.
pub open spec fn tags_shown(nodes: Seq<TagTree>, n: nat, depth: nat) -> Seq<char>
    decreases nodes, n,
    when n <= nodes.len()
{
    if n == 0 {
        Seq::empty()
    } else {
        tags_shown(nodes, (n - 1) as nat, depth) + tag_shown(nodes[n - 1], depth)
    }
}

/// How many tags of a level are shown.
pub open spec fn shown_count(nodes: Seq<TagTree>) -> nat {
    if nodes.len() <= MAX_TAGS_PER_LEVEL {
        nodes.len()
    } else {
        MAX_TAGS_PER_LEVEL as nat
    }
}

/// A level of a listing, with how many more there are.
pub open spec fn level_shown(nodes: Seq<TagTree>, depth: nat) -> Seq<char>
    decreases nodes, nodes.len() + 1,
{
    tags_shown(nodes, shown_count(nodes), depth) + (if nodes.len() > MAX_TAGS_PER_LEVEL {
        "\n"@ + indent(depth + 1) + "… "@ + text::decimal(
            (nodes.len() - MAX_TAGS_PER_LEVEL) as nat,
        ) + " more at this level"@
    } else {
        ""@
    })
}

/// How many tags the first `n` tags of a level show, those below included.
pub open spec fn tags_counted(nodes: Seq<TagTree>, n: nat, depth: nat) -> nat
    decreases nodes, n,
    when n <= nodes.len()
{
    if n == 0 {
        0
    } else {
        tags_counted(nodes, (n - 1) as nat, depth) + 1 + if depth + 1 < TAG_TREE_DEPTH {
            level_counted(nodes[n - 1].children, depth + 1)
        } else {
            0
        }
    }
}

/// How many tags a level shows, those below included.
pub open spec fn level_counted(nodes: Seq<TagTree>, depth: nat) -> nat
    decreases nodes, nodes.len() + 1,
{
    tags_counted(nodes, shown_count(nodes), depth)
}

proof fn lemma_counted_deep(nodes: Seq<TagTree>, n: nat, depth: nat)
    requires
        n <= nodes.len(),
        depth + 1 >= TAG_TREE_DEPTH,
    ensures
        tags_counted(nodes, n, depth) == n,
    decreases n,
{
    if n > 0 {
        lemma_counted_deep(nodes, (n - 1) as nat, depth);
    }
}

proof fn lemma_counted_top(nodes: Seq<TagTree>, n: nat)
    requires
        n <= nodes.len(),
    ensures
        tags_counted(nodes, n, 0) <= n * 16,
    decreases n,
{
    if n > 0 {
        lemma_counted_top(nodes, (n - 1) as nat);
        let children = nodes[n - 1].children;
        lemma_counted_deep(children, shown_count(children), 1);
        assert(level_counted(children, 1) == tags_counted(children, shown_count(children), 1));
    }
}

/// A listing shows at most 240 tags.
pub proof fn lemma_listing_is_bounded(nodes: Seq<TagTree>)
    ensures
        level_counted(nodes, 0) <= 240,
        level_counted(nodes, 1) <= 15,
{
    lemma_counted_top(nodes, shown_count(nodes));
    lemma_counted_deep(nodes, shown_count(nodes), 1);
}

fn indent_text(depth: usize) -> (text: String)
    ensures
        text@ == indent(depth as nat),
    decreases depth,
{
    if depth > 0 {
        indent_text(depth - 1).concat("  ")
    } else {
        String::new()
    }
}

fn tag_text(node: &TagWithCount, depth: usize) -> (text: String)
    requires
        depth < TAG_TREE_DEPTH,
    ensures
        text@ == tag_shown(node@, depth as nat),
    decreases node, 1int,
{
    let space = indent_text(depth + 1);
    let tail = if depth + 1 < TAG_TREE_DEPTH {
        level_text(&node.children, depth + 1)
    } else if node.children_total > 0 {
        let mut tail = String::from_str("\n");
        tail.append(space.as_str());
        tail.append("  (");
        text::push_signed(&mut tail, node.children_total as i64);
        tail.append(" sub-tags — call list_tags with parent_id \"");
        tail.append(node.tag.id.as_str());
        tail.append("\")");
        tail
    } else {
        String::from_str("")
    };
    let mut shown = String::from_str("\n");
    shown.append(space.as_str());
    shown.append(node.tag.name.as_str());
    shown.append(" (");
    text::push_signed(&mut shown, node.atom_count as i64);
    shown.append(" atom");
    shown.append(
        if node.atom_count == 1 {
            ""
        } else {
            "s"
        },
    );
    shown.append(", tag_id: ");
    shown.append(node.tag.id.as_str());
    shown.append(")");
    shown.append(tail.as_str());
    shown
}

fn level_text(nodes: &Vec<TagWithCount>, depth: usize) -> (text: String)
    requires
        depth < TAG_TREE_DEPTH,
    ensures
        text@ == level_shown(scope::trees_of(nodes@), depth as nat),
    decreases nodes, 0int,
{
    let ghost all = scope::trees_of(nodes@);
    let n: usize = if nodes.len() <= MAX_TAGS_PER_LEVEL {
        nodes.len()
    } else {
        MAX_TAGS_PER_LEVEL
    };
    proof {
        scope::lemma_trees_of(nodes@);
    }
    let mut out = String::new();
    let mut at: usize = 0;
    while at < n
        invariant
            at <= n <= nodes.len(),
            depth < TAG_TREE_DEPTH,
            all == scope::trees_of(nodes@),
            all.len() == nodes@.len(),
            forall|i: int| 0 <= i < all.len() ==> #[trigger] all[i] == scope::tree_of(nodes@[i]),
            out@ == tags_shown(all, at as nat, depth as nat),
        decreases n - at,
    {
        proof {
            assert(decreases_to!(*nodes => nodes@));
            assert(decreases_to!(nodes@ => nodes@[at as int]));
        }
        let shown = tag_text(&nodes[at], depth);
        out.append(shown.as_str());
        at = at + 1;
    }
    if nodes.len() > MAX_TAGS_PER_LEVEL {
        let mut rest = String::from_str("\n");
        let space = indent_text(depth + 1);
        rest.append(space.as_str());
        rest.append("… ");
        text::push_decimal(&mut rest, (nodes.len() - MAX_TAGS_PER_LEVEL) as u64);
        rest.append(" more at this level");
        out.append(rest.as_str());
    } else {
        out.append("");
    }
    out
}

fn count_level(nodes: &Vec<TagWithCount>) -> (count: i32)
    ensures
        count == level_counted(scope::trees_of(nodes@), 0),
{
    let ghost all = scope::trees_of(nodes@);
    let n: usize = if nodes.len() <= MAX_TAGS_PER_LEVEL {
        nodes.len()
    } else {
        MAX_TAGS_PER_LEVEL
    };
    proof {
        scope::lemma_trees_of(nodes@);
    }
    let mut count: i32 = 0;
    let mut at: usize = 0;
    while at < n
        invariant
            at <= n <= nodes.len(),
            n <= MAX_TAGS_PER_LEVEL,
            all == scope::trees_of(nodes@),
            all.len() == nodes@.len(),
            forall|i: int| 0 <= i < all.len() ==> #[trigger] all[i] == scope::tree_of(nodes@[i]),
            count == tags_counted(all, at as nat, 0),
            count <= at * 16,
        decreases n - at,
    {
        let children = &nodes[at].children;
        proof {
            scope::lemma_trees_of(children@);
            assert(all[at as int].children == scope::trees_of(children@));
            lemma_counted_deep(all[at as int].children, shown_count(all[at as int].children), 1);
            lemma_counted_top(all, (at + 1) as nat);
            let kids = all[at as int].children;
            assert(level_counted(kids, 1) == tags_counted(kids, shown_count(kids), 1));
        }
        let below: usize = if children.len() <= MAX_TAGS_PER_LEVEL {
            children.len()
        } else {
            MAX_TAGS_PER_LEVEL
        };
        count = count + 1 + below as i32;
        at = at + 1;
    }
    count
}

/// Renders two levels of the tag tree behind `heading`: each tag on its own
/// line, those below it indented, and a pointer for whatever is left out. Says
/// how many tags are shown.
pub fn render_tags(heading: String, nodes: &Vec<TagWithCount>) -> (listing: (String, i32))
    ensures
        listing.0@ == heading@ + level_shown(scope::trees_of(nodes@), 0),
        listing.1 == level_counted(scope::trees_of(nodes@), 0),
{
    let shown = level_text(nodes, 0);
    (heading.concat(shown.as_str()), count_level(nodes))
}

// ==================== What is shown ====================

/// What is stored with a citation is the start of its source: all of it where
/// that is short enough, and else two hundred characters.
pub proof fn lemma_an_excerpt_is_the_start(text: Seq<char>)
    ensures
        excerpt_of(text).len() <= 200,
        excerpt_of(text).len() <= text.len(),
        excerpt_of(text) == text.take(excerpt_of(text).len() as int),
        text.len() <= 200 ==> excerpt_of(text) == text,
        text.len() > 200 ==> excerpt_of(text).len() == 200,
{
    if text.len() <= 200 {
        assert(text.take(text.len() as int) =~= text);
    }
}

/// What can be cited is led by its number in brackets, as a marker has it, and
/// what cannot be cited by nothing.
pub proof fn lemma_a_number_leads(number: i32)
    ensures
        lead(Some(number)) == "["@ + text::signed_decimal(number as int) + "] "@,
        lead(None).len() == 0,
{
}

/// Arguments say where to read and how much: `offset` is the first line, none
/// where it is missing, and `limit` the number of lines, at least one, at most
/// two thousand, and five hundred where it is missing.
pub proof fn lemma_paging_goes_by_the_arguments(args: JsonTree, n: u64)
    requires
        n <= 0xffff_ffff,
    ensures
        args.field("offset"@) == Some(JsonTree::Natural(n)) ==> paging(args).0 == n,
        args.field("offset"@) is None ==> paging(args).0 == 0,
        args.field("limit"@) == Some(JsonTree::Natural(n)) ==> paging(args).1 == if n < 1 {
            1
        } else if n > 2000 {
            2000
        } else {
            n as int
        },
        args.field("limit"@) is None ==> paging(args).1 == 500,
        1 <= paging(args).1 <= 2000,
{
}

/// A window holds the lines from its offset on, as many as its limit says or as
/// there are, and nothing where it starts behind the last line.
pub proof fn lemma_a_window_holds_its_lines(content: Seq<char>, offset: int, limit: int)
    requires
        0 <= offset,
        0 <= limit,
    ensures
        ({
            let lines = text::lines(content);
            let end = if offset + limit < lines.len() {
                offset + limit
            } else {
                lines.len() as int
            };
            &&& offset < lines.len() ==> window_body(content, offset, limit) == text::joined(
                lines.subrange(offset, end),
                "\n"@,
            )
            &&& offset >= lines.len() ==> window_body(content, offset, limit).len() == 0
        }),
{
}

/// What a model is shown of a window ends with its lines. Where all lines are in
/// the window it is just those; where lines follow, it says from which offset on
/// and through which tool to read them.
pub proof fn lemma_a_window_is_shown_with_the_way_on(
    content: Seq<char>,
    offset: int,
    limit: int,
    tool: Seq<char>,
)
    requires
        0 <= offset < text::lines(content).len(),
        0 < limit,
    ensures
        ({
            let total = text::lines(content).len() as int;
            let body = window_body(content, offset, limit);
            let shown = window_shown(content, offset, limit, tool);
            &&& shown.len() >= body.len()
            &&& shown.skip(shown.len() - body.len()) == body
            &&& offset == 0 && limit >= total ==> shown == body
            &&& offset + limit < total ==> text::has_text(
                shown,
                "Call "@ + tool + " again with offset="@ + text::decimal((offset + limit) as nat)
                    + " to continue."@,
            )
        }),
{
    let total = text::lines(content).len() as int;
    let end = window_end(offset, limit, total);
    let body = window_body(content, offset, limit);
    let shown = window_shown(content, offset, limit, tool);
    if offset == 0 && end == total {
        assert(shown.skip(0) =~= shown);
    } else if end < total {
        reveal_strlit(" more lines. Call ");
        reveal_strlit("Call ");
        reveal_strlit(" more lines. ");
        reveal_strlit(" to continue.]\n");
        reveal_strlit(" to continue.");
        reveal_strlit("]\n");
        let front = "[lines "@ + text::decimal((offset + 1) as nat) + "-"@ + text::decimal(
            end as nat,
        ) + " of "@ + text::decimal(total as nat) + ". "@ + text::decimal((total - end) as nat);
        let needle = "Call "@ + tool + " again with offset="@ + text::decimal(end as nat)
            + " to continue."@;
        assert(" more lines. Call "@ =~= " more lines. "@ + "Call "@);
        assert(" to continue.]\n"@ =~= " to continue."@ + "]\n"@);
        let before = front + " more lines. "@;
        let after = "]\n"@ + body;
        assert(shown =~= before + needle + after);
        text::lemma_text_within(before, needle, after);
        assert(shown.skip(shown.len() - body.len()) =~= body);
    } else {
        assert(shown.skip(shown.len() - body.len()) =~= body);
    }
}

/// The line of a tag in a listing: its name, how many atoms it has, and its id.
pub open spec fn tag_line(node: TagTree) -> Seq<char> {
    node.name + " ("@ + text::signed_decimal(node.atom_count as int) + " atom"@ + (
    if node.atom_count == 1 {
        ""@
    } else {
        "s"@
    }) + ", tag_id: "@ + node.id + ")"@
}

proof fn lemma_tag_has_its_line(node: TagTree, depth: nat)
    ensures
        text::has_text(tag_shown(node, depth), tag_line(node)),
{
    let before = "\n"@ + indent(depth + 1);
    let after = if depth + 1 < TAG_TREE_DEPTH {
        level_shown(node.children, depth + 1)
    } else if node.children_total > 0 {
        "\n"@ + indent(depth + 1) + "  ("@ + text::signed_decimal(node.children_total as int)
            + " sub-tags — call list_tags with parent_id \""@ + node.id + "\")"@
    } else {
        ""@
    };
    assert(tag_shown(node, depth) =~= before + tag_line(node) + after);
    text::lemma_text_within(before, tag_line(node), after);
}

proof fn lemma_tags_have_each(nodes: Seq<TagTree>, n: nat, depth: nat, i: int)
    requires
        n <= nodes.len(),
        0 <= i < n,
    ensures
        text::has_text(tags_shown(nodes, n, depth), tag_shown(nodes[i], depth)),
    decreases n,
{
    let early = tags_shown(nodes, (n - 1) as nat, depth);
    let last = tag_shown(nodes[n - 1], depth);
    let none = Seq::<char>::empty();
    if i == n - 1 {
        assert(early + last + none =~= tags_shown(nodes, n, depth));
        text::lemma_text_within(early, last, none);
    } else {
        lemma_tags_have_each(nodes, (n - 1) as nat, depth, i);
        assert(none + early + last =~= tags_shown(nodes, n, depth));
        text::lemma_text_within(none, early, last);
        text::lemma_text_in_text(tag_shown(nodes[i], depth), early, tags_shown(nodes, n, depth));
    }
}

proof fn lemma_level_has_each(nodes: Seq<TagTree>, depth: nat, i: int)
    requires
        0 <= i < nodes.len(),
        i < 15,
    ensures
        text::has_text(level_shown(nodes, depth), tag_shown(nodes[i], depth)),
{
    let n = shown_count(nodes);
    lemma_tags_have_each(nodes, n, depth, i);
    let tags = tags_shown(nodes, n, depth);
    let none = Seq::<char>::empty();
    let after = if nodes.len() > MAX_TAGS_PER_LEVEL {
        "\n"@ + indent(depth + 1) + "… "@ + text::decimal(
            (nodes.len() - MAX_TAGS_PER_LEVEL) as nat,
        ) + " more at this level"@
    } else {
        ""@
    };
    assert(level_shown(nodes, depth) =~= none + tags + after);
    text::lemma_text_within(none, tags, after);
    text::lemma_text_in_text(tag_shown(nodes[i], depth), tags, level_shown(nodes, depth));
}

proof fn lemma_tag_has_its_level(node: TagTree)
    ensures
        text::has_text(tag_shown(node, 0), level_shown(node.children, 1)),
{
    let below = level_shown(node.children, 1);
    let front = "\n"@ + indent(1) + tag_line(node);
    let none = Seq::<char>::empty();
    assert(tag_shown(node, 0) =~= front + below + none);
    text::lemma_text_within(front, below, none);
}

proof fn lemma_child_in_tag(node: TagTree, j: int)
    requires
        0 <= j < node.children.len(),
        j < 15,
    ensures
        text::has_text(tag_shown(node, 0), tag_line(node.children[j])),
{
    let child = node.children[j];
    let below = level_shown(node.children, 1);
    lemma_level_has_each(node.children, 1, j);
    lemma_tag_has_its_line(child, 1);
    text::lemma_text_in_text(tag_line(child), tag_shown(child, 1), below);
    lemma_tag_has_its_level(node);
    text::lemma_text_in_text(tag_line(child), below, tag_shown(node, 0));
}

/// A listing names the first fifteen tags of its level and the first fifteen
/// below each of those, each with its atoms and its id.
pub proof fn lemma_a_listing_names_two_levels(nodes: Seq<TagTree>, i: int, j: int)
    requires
        0 <= i < nodes.len(),
        i < 15,
    ensures
        text::has_text(level_shown(nodes, 0), tag_line(nodes[i])),
        0 <= j < nodes[i].children.len() && j < 15 ==> text::has_text(
            level_shown(nodes, 0),
            tag_line(nodes[i].children[j]),
        ),
{
    let whole = level_shown(nodes, 0);
    let node = nodes[i];
    lemma_level_has_each(nodes, 0, i);
    lemma_tag_has_its_line(node, 0);
    text::lemma_text_in_text(tag_line(node), tag_shown(node, 0), whole);
    if 0 <= j < node.children.len() && j < 15 {
        lemma_child_in_tag(node, j);
        text::lemma_text_in_text(tag_line(node.children[j]), tag_shown(node, 0), whole);
    }
}

/// A listing tells of the tags behind the fifteenth of a level only how many
/// there are: with others in their place it would be the same.
pub proof fn lemma_a_listing_names_no_more(
    nodes: Seq<TagTree>,
    others: Seq<TagTree>,
    n: nat,
    depth: nat,
)
    requires
        nodes.len() == others.len(),
        n <= nodes.len(),
        n <= 15,
        forall|i: int| 0 <= i < nodes.len() && i < 15 ==> #[trigger] nodes[i] == others[i],
    ensures
        tags_shown(nodes, n, depth) == tags_shown(others, n, depth),
        n == shown_count(nodes) ==> level_shown(nodes, depth) == level_shown(others, depth),
    decreases n,
{
    if n > 0 {
        lemma_a_listing_names_no_more(nodes, others, (n - 1) as nat, depth);
        assert(nodes[n - 1] == others[n - 1]);
    }
}

/// A listing counts the tags that it names: one for each tag of its level, and
/// one for each that is named below it.
pub proof fn lemma_a_listing_counts_what_it_names(nodes: Seq<TagTree>, n: nat)
    requires
        n < nodes.len(),
    ensures
        tags_counted(nodes, 0, 0) == 0,
        tags_counted(nodes, n + 1, 0) == tags_counted(nodes, n, 0) + 1 + if nodes[n as int].children.len()
            <= 15 {
            nodes[n as int].children.len() as int
        } else {
            15
        },
        level_counted(nodes, 0) == tags_counted(
            nodes,
            if nodes.len() <= 15 {
                nodes.len()
            } else {
                15
            },
            0,
        ),
{
    let children = nodes[n as int].children;
    lemma_counted_deep(children, shown_count(children), 1);
    assert(level_counted(children, 1) == tags_counted(children, shown_count(children), 1));
}

/// A window that does not hold all lines says which it holds, counted from one,
/// and of how many; one that starts behind the last says so; and of nothing
/// nothing is shown.
pub proof fn lemma_a_window_says_which_lines_it_holds(
    content: Seq<char>,
    offset: int,
    limit: int,
    tool: Seq<char>,
)
    requires
        0 <= offset,
        0 < limit,
    ensures
        ({
            let total = text::lines(content).len() as int;
            let body = window_body(content, offset, limit);
            let shown = window_shown(content, offset, limit, tool);
            &&& total == 0 ==> shown.len() == 0
            &&& 0 < total <= offset ==> shown == "[offset="@ + text::decimal(offset as nat)
                + " is past end of content ("@ + text::decimal(total as nat) + " total lines)]"@
            &&& 0 < offset < total && offset + limit >= total ==> shown == "[lines "@
                + text::decimal((offset + 1) as nat) + "-"@ + text::decimal(total as nat) + " of "@
                + text::decimal(total as nat) + " (end of content).]\n"@ + body
            &&& offset + limit < total ==> shown == "[lines "@ + text::decimal((offset + 1) as nat)
                + "-"@ + text::decimal((offset + limit) as nat) + " of "@ + text::decimal(
                total as nat,
            ) + ". "@ + text::decimal((total - offset - limit) as nat) + " more lines. Call "@ + tool
                + " again with offset="@ + text::decimal((offset + limit) as nat)
                + " to continue.]\n"@ + body
        }),
{
}


} // verus!
