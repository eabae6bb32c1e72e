//! The tools that read the knowledge base. What they fetch is handed to them;
//! they decide what the model gets to see of it.

use crate::agent_runtime::citations;
use crate::agent_runtime::citations::CitableView;
use crate::agent_runtime::citations::CitationAdmission;
use crate::agent_runtime::citations::CitationLedger;
use crate::agent_runtime::citations::CitationSource;
use crate::agent_runtime::tools::ToolResult;
use crate::agent_runtime::tools::ToolResultView;
use crate::chat_tools::reading;
use crate::chat_tools::scope;
use crate::chat_tools::scope::ScopeFilter;
use crate::chat_tools::scope::Tag;
use crate::chat_tools::scope::TagScope;
use crate::chat_tools::scope::TagTree;
use crate::chat_tools::scope::TagWithCount;
use crate::json::Json;
use crate::json::JsonTree;
use crate::outside;
use crate::providers::types;
use crate::text;
use vstd::prelude::*;

verus! {

/// The text of a field of the arguments, empty where there is none.
pub open spec fn text_arg(args: JsonTree, key: Seq<char>) -> Seq<char> {
    types::or_empty(args.text_field(key))
}

/// Reads the text of a field of the arguments.
pub fn get_text_arg(args: &Json, key: &str) -> (text: String)
    ensures
        text@ == text_arg(args@, key@),
{
    match args.get_str(key) {
        Some(text) => text.to_owned(),
        None => String::new(),
    }
}

/// Whether a ledger lets tools mint numbers.
pub open spec fn is_open(ledger: CitationLedger) -> bool {
    ledger.admission() == CitationAdmission::Open
}

// ==================== search_atoms ====================

/// What a search asks for.
#[derive(Debug, PartialEq)]
pub struct SearchRequest {
    pub query: String,
    pub limit: i32,
    /// Only atoms of the last so many days.
    pub since_days: Option<i32>,
}

/// The number of results that a search asks for.
pub open spec fn search_limit(args: JsonTree) -> i32 {
    match args.field("limit"@) {
        Some(value) => match value.signed() {
            Some(limit) => limit as i32,
            None => 5,
        },
        None => 5,
    }
}

/// The days that a search goes back. What is not positive is no limit.
pub open spec fn search_days(args: JsonTree) -> Option<i32> {
    match args.field("since_days"@) {
        Some(JsonTree::Natural(days)) => if days == 0 {
            None
        } else if days <= i32::MAX {
            Some(days as i32)
        } else {
            Some(i32::MAX)
        },
        Some(JsonTree::Fraction(number)) => match outside::integer_part(number) {
            Some(days) => if days > 0 {
                Some(days)
            } else {
                None
            },
            None => None,
        },
        _ => None,
    }
}

/// Reads what a search asks for.
pub fn search_request(args: &Json) -> (request: SearchRequest)
    ensures
        request.query@ == text_arg(args@, "query"@),
        request.limit == search_limit(args@),
        request.since_days == search_days(args@),
{
    let limit: i32 = match args.get("limit") {
        Some(value) => match value.as_i64() {
            Some(limit) => #[verifier::truncate] (limit as i32),
            None => 5,
        },
        None => 5,
    };
    let since_days: Option<i32> = match args.get("since_days") {
        Some(Json::Natural(days)) => if *days == 0 {
            None
        } else if *days <= i32::MAX as u64 {
            Some(*days as i32)
        } else {
            Some(i32::MAX)
        },
        Some(Json::Fraction(number)) => match outside::number_integer_part(number) {
            Some(days) => if days > 0 {
                Some(days)
            } else {
                None
            },
            None => None,
        },
        _ => None,
    };
    SearchRequest { query: get_text_arg(args, "query"), limit, since_days }
}

/// One result of a search.
#[derive(Debug, PartialEq)]
pub struct SearchHit {
    pub atom_id: String,
    pub chunk_index: i32,
    /// The chunk that matched.
    pub content: String,
    /// How well it matched, to two decimals.
    pub similarity: String,
}

/// What registering the first `n` results makes of a ledger, and what the
/// model is shown of each.
pub open spec fn hits_shown(
    items: Seq<CitableView>,
    mints: bool,
    hits: Seq<SearchHit>,
    n: nat,
) -> (Seq<CitableView>, Seq<Seq<char>>)
    decreases n,
    when n <= hits.len()
{
    if n == 0 {
        (items, Seq::empty())
    } else {
        let (before, shown) = hits_shown(items, mints, hits, (n - 1) as nat);
        let hit = hits[n - 1];
        let (after, number) = citations::registered(
            before,
            mints,
            CitationSource::Atom,
            hit.atom_id@,
            Some(hit.chunk_index),
            reading::excerpt_of(hit.content@),
        );
        (
            after,
            shown.push(
                reading::lead(number) + "(atom_id: "@ + hit.atom_id@ + ", similarity: "@
                    + hit.similarity@ + ")\n"@ + hit.content@,
            ),
        )
    }
}

/// Shows the results of a search, each with the number that cites it.
pub fn search_result(results: Result<Vec<SearchHit>, String>, ledger: &mut CitationLedger) -> (
    result: ToolResult)
    requires
        old(ledger).well_formed(),
        results matches Ok(hits) ==> old(ledger)@.len() + hits@.len() < i32::MAX,
    ensures
        final(ledger).well_formed(),
        final(ledger).admission() == old(ledger).admission(),
        match results {
            Ok(hits) => {
                let (after, shown) = hits_shown(old(ledger)@, is_open(*old(ledger)), hits@, hits@.len());
                &&& final(ledger)@ == after
                &&& result@ == ToolResultView::found(
                    text::joined(shown, "\n\n"@),
                    hits@.len() as i32,
                )
            },
            Err(error) => final(ledger)@ == old(ledger)@ && result@ == ToolResultView::failure(
                error@,
            ),
        },
{
    match results {
        Err(error) => ToolResult::failed(error.as_str()),
        Ok(hits) => {
            let mut shown: Vec<String> = Vec::new();
            let ghost start = ledger@;
            let ghost mints = is_open(*ledger);
            let mut at: usize = 0;
            assert(text::texts(shown@) =~= Seq::empty());
            while at < hits.len()
                invariant
                    at <= hits.len(),
                    ledger.well_formed(),
                    ledger.admission() == old(ledger).admission(),
                    mints == is_open(*ledger),
                    start.len() + hits@.len() < i32::MAX,
                    ledger@.len() <= start.len() + at,
                    (ledger@, text::texts(shown@)) == hits_shown(start, mints, hits@, at as nat),
                decreases hits.len() - at,
            {
                let hit = &hits[at];
                let excerpt = reading::excerpt(hit.content.as_str());
                let number = ledger.register(
                    CitationSource::Atom,
                    hit.atom_id.as_str(),
                    Some(hit.chunk_index),
                    excerpt.as_str(),
                );
                let mut line = reading::citation_marker(number);
                line.append("(atom_id: ");
                line.append(hit.atom_id.as_str());
                line.append(", similarity: ");
                line.append(hit.similarity.as_str());
                line.append(")\n");
                line.append(hit.content.as_str());
                let ghost before = shown@;
                shown.push(line);
                assert(text::texts(shown@) =~= text::texts(before).push(line@));
                at = at + 1;
            }
            let count: i32 = hits.len() as i32;
            assert(text::texts(shown@).subrange(0, shown@.len() as int) =~= text::texts(shown@));
            let output = text::join(&shown, 0, shown.len(), "\n\n");
            ToolResult::ok(output, count)
        },
    }
}

// ==================== get_atom ====================

/// What reading an atom makes of a ledger, and what the model is told. The
/// scope is asked first: what it does not admit is neither shown nor cited.
pub open spec fn atom_read(
    args: JsonTree,
    admitted: Result<bool, String>,
    content: Result<Option<String>, String>,
    items: Seq<CitableView>,
    mints: bool,
) -> (Seq<CitableView>, ToolResultView) {
    let id = text_arg(args, "atom_id"@);
    let (offset, limit) = reading::paging(args);
    match admitted {
        Err(error) => (items, ToolResultView::failure(error@)),
        Ok(false) => (items, ToolResultView::found(reading::refusal("Atom "@ + id), 0)),
        Ok(true) => match content {
            Err(error) => (items, ToolResultView::failure(error@)),
            Ok(None) => (items, ToolResultView::found("Atom not found"@, 0)),
            Ok(Some(content)) => {
                let body = reading::window_body(content@, offset as int, limit as int);
                let shown = reading::window_shown(
                    content@,
                    offset as int,
                    limit as int,
                    "get_atom"@,
                );
                let (after, number) = citations::registered(
                    items,
                    mints,
                    CitationSource::Atom,
                    id,
                    None,
                    reading::excerpt_of(body),
                );
                (
                    after,
                    ToolResultView::found(
                        reading::lead(number) + "(atom_id: "@ + id + ")\n"@ + shown,
                        1,
                    ),
                )
            },
        },
    }
}

/// Reads an atom. `admitted` is what the scope says of it, and `content` what
/// is stored of it, which is looked at only where the scope admits it.
pub fn get_atom(
    args: &Json,
    admitted: Result<bool, String>,
    content: Result<Option<String>, String>,
    ledger: &mut CitationLedger,
) -> (result: ToolResult)
    requires
        old(ledger).well_formed(),
        old(ledger).has_room(),
    ensures
        final(ledger).well_formed(),
        final(ledger).admission() == old(ledger).admission(),
        (final(ledger)@, result@) == atom_read(
            args@,
            admitted,
            content,
            old(ledger)@,
            is_open(*old(ledger)),
        ),
{
    let id = get_text_arg(args, "atom_id");
    let (offset, limit) = reading::paging_args(args);
    match admitted {
        Err(error) => ToolResult::failed(error.as_str()),
        Ok(false) => {
            let subject = String::from_str("Atom ").concat(id.as_str());
            ToolResult::ok(reading::out_of_scope(subject.as_str()), 0)
        },
        Ok(true) => match content {
            Err(error) => ToolResult::failed(error.as_str()),
            Ok(None) => ToolResult::ok(String::from_str("Atom not found"), 0),
            Ok(Some(content)) => {
                let window = reading::line_window(content.as_str(), offset, limit, "get_atom");
                let excerpt = reading::excerpt(window.body.as_str());
                let number = ledger.register(
                    CitationSource::Atom,
                    id.as_str(),
                    None,
                    excerpt.as_str(),
                );
                let mut output = reading::citation_marker(number);
                output.append("(atom_id: ");
                output.append(id.as_str());
                output.append(")\n");
                output.append(window.rendered.as_str());
                ToolResult::ok(output, 1)
            },
        },
    }
}

/// Of an atom that the scope does not admit nothing reaches the model: what
/// it is told does not depend on what is stored, and nothing becomes citable.
pub proof fn lemma_closed_atom_stays_closed(
    args: JsonTree,
    content: Result<Option<String>, String>,
    other: Result<Option<String>, String>,
    items: Seq<CitableView>,
    mints: bool,
)
    ensures
        atom_read(args, Ok(false), content, items, mints) == atom_read(
            args,
            Ok(false),
            other,
            items,
            mints,
        ),
        atom_read(args, Ok(false), content, items, mints).0 == items,
{
}

// ==================== list_tags ====================

/// A text where there is one that is not empty.
pub open spec fn not_empty(value: Option<Seq<char>>) -> Option<Seq<char>> {
    match value {
        Some(text) => if text.len() > 0 {
            Some(text)
        } else {
            None
        },
        None => None,
    }
}

/// A listing of tags behind a heading.
pub open spec fn listing(heading: Seq<char>, nodes: Seq<TagTree>) -> ToolResultView {
    ToolResultView::found(
        heading + reading::level_shown(nodes, 0),
        reading::level_counted(nodes, 0) as i32,
    )
}

/// What the model is told of the tags below the one it asks for, or at the top
/// of the tree. A tag is looked up in the whole tree, so that one in scope and
/// one out of scope get different answers; what is shown is what may be named.
pub open spec fn tags_listed(args: JsonTree, tree: Seq<TagTree>, scope: ScopeFilter) -> ToolResultView {
    let seen = scope::visible(tree, scope);
    match not_empty(args.text_field("parent_id"@)) {
        Some(needle) => match scope::named_tag(tree, needle) {
            Some(tag) => {
                let closed = ToolResultView::found(
                    reading::refusal("'"@ + tag.name + "'"@),
                    0,
                );
                if !scope::may_list(tree, scope, tag.id) {
                    closed
                } else {
                    match scope::named_tag(seen, tag.id) {
                        Some(kept) => listing(
                            "Sub-tags of "@ + kept.name + " (counts include sub-tags):"@,
                            seq![kept],
                        ),
                        None => closed,
                    }
                }
            },
            None => ToolResultView::found(
                "No tag matches '"@ + needle
                    + "'. Call list_tags with no arguments to see the top of the tree."@,
                0,
            ),
        },
        None => if seen.len() > 0 {
            listing("Tags (counts include sub-tags):"@, seen)
        } else if tree.len() == 0 {
            ToolResultView::found("This knowledge base has no tags yet."@, 0)
        } else {
            ToolResultView::found("No tags are within this conversation's scope."@, 0)
        },
    }
}

fn closed_tag(name: &str) -> (result: ToolResult)
    ensures
        result@ == ToolResultView::found(reading::refusal("'"@ + name@ + "'"@), 0),
{
    let mut subject = String::from_str("'");
    subject.append(name);
    subject.append("'");
    ToolResult::ok(reading::out_of_scope(subject.as_str()), 0)
}

/// Lists the tags of the knowledge base as far as the scope lets them be
/// named.
pub fn list_tags(args: &Json, tree: Result<Vec<TagWithCount>, String>, scope: &ScopeFilter) -> (
    result: ToolResult)
    ensures
        result@ == (match tree {
            Ok(tree) => tags_listed(args@, scope::trees_of(tree@), *scope),
            Err(error) => ToolResultView::failure(error@),
        }),
{
    let tree = match tree {
        Ok(tree) => tree,
        Err(error) => {
            return ToolResult::failed(error.as_str());
        },
    };
    let tags = TagScope::resolve(&tree, scope);
    let seen = tags.prune(&tree);
    let ghost all = scope::trees_of(tree@);
    proof {
        scope::lemma_trees_of(tree@);
        scope::lemma_trees_of(seen@);
        reading::lemma_listing_is_bounded(scope::trees_of(seen@));
    }
    let needle = get_text_arg(args, "parent_id");
    if needle.as_str().is_empty() {
        if seen.len() > 0 {
            let (output, count) = reading::render_tags(
                String::from_str("Tags (counts include sub-tags):"),
                &seen,
            );
            return ToolResult::ok(output, count);
        }
        if tree.len() == 0 {
            return ToolResult::ok(String::from_str("This knowledge base has no tags yet."), 0);
        }
        return ToolResult::ok(
            String::from_str("No tags are within this conversation's scope."),
            0,
        );
    }
    let tag = match scope::resolve_tag(&tree, needle.as_str()) {
        Some(tag) => tag,
        None => {
            let mut output = String::from_str("No tag matches '");
            output.append(needle.as_str());
            output.append("'. Call list_tags with no arguments to see the top of the tree.");
            return ToolResult::ok(output, 0);
        },
    };
    let listable = tags.listable(tag.tag.id.as_str());
    assert(listable == scope::may_list(all, *scope, tag@.id));
    if !listable {
        return closed_tag(tag.tag.name.as_str());
    }
    match scope::resolve_tag(&seen, tag.tag.id.as_str()) {
        Some(kept) => {
            let mut heading = String::from_str("Sub-tags of ");
            heading.append(kept.tag.name.as_str());
            heading.append(" (counts include sub-tags):");
            let mut roots: Vec<TagWithCount> = Vec::new();
            roots.push(kept.clone());
            proof {
                scope::lemma_trees_of(roots@);
                assert(scope::trees_of(roots@) =~= seq![kept@]);
                reading::lemma_listing_is_bounded(seq![kept@]);
            }
            let (output, count) = reading::render_tags(heading, &roots);
            ToolResult::ok(output, count)
        },
        None => closed_tag(tag.tag.name.as_str()),
    }
}

// ==================== get_wiki ====================

/// A wiki article.
#[derive(Debug, PartialEq)]
pub struct WikiArticle {
    pub content: String,
    pub atom_count: i32,
    pub updated_at: String,
}

/// The tag whose article arguments ask for, or what the model is told in its
/// place. A scope that closes a tag closes its article.
pub open spec fn wiki_asked(args: JsonTree, tree: Seq<TagTree>, scope: ScopeFilter) -> Result<
    (Seq<char>, Seq<char>),
    ToolResultView,
> {
    let needle = text::trimmed(text_arg(args, "tag"@));
    if needle.len() == 0 {
        Err(ToolResultView::failure("tag is required"@))
    } else {
        match scope::named_tag(tree, needle) {
            Some(tag) => if scope::may_read(tree, scope, tag.id) {
                Ok((tag.id, tag.name))
            } else {
                Err(
                    ToolResultView::found(
                        reading::refusal("The wiki article for '"@ + tag.name + "'"@),
                        0,
                    ),
                )
            },
            None => Err(
                ToolResultView::found(
                    "No tag matches '"@ + needle + "'. Call list_tags to see what exists."@,
                    0,
                ),
            ),
        }
    }
}

/// Whether arguments ask for an article at all.
pub fn wiki_wanted(args: &Json) -> (refused: Option<ToolResult>)
    ensures
        match refused {
            Some(result) => text::blank(text_arg(args@, "tag"@)) && result@
                == ToolResultView::failure("tag is required"@),
            None => !text::blank(text_arg(args@, "tag"@)),
        },
{
    let needle = get_text_arg(args, "tag");
    if text::is_blank(needle.as_str()) {
        Some(ToolResult::failed("tag is required"))
    } else {
        None
    }
}

/// Decides whose article is to be fetched.
pub fn wiki_target(args: &Json, tree: &Vec<TagWithCount>, scope: &ScopeFilter) -> (target: Result<
    Tag,
    ToolResult,
>)
    ensures
        match target {
            Ok(tag) => wiki_asked(args@, scope::trees_of(tree@), *scope) == Ok::<
                (Seq<char>, Seq<char>),
                ToolResultView,
            >((tag.id@, tag.name@)),
            Err(result) => wiki_asked(args@, scope::trees_of(tree@), *scope) == Err::<
                (Seq<char>, Seq<char>),
                ToolResultView,
            >(result@),
        },
{
    let needle = text::trim(get_text_arg(args, "tag").as_str());
    if needle.as_str().is_empty() {
        return Err(ToolResult::failed("tag is required"));
    }
    let tag = match scope::resolve_tag(tree, needle.as_str()) {
        Some(tag) => tag,
        None => {
            let mut output = String::from_str("No tag matches '");
            output.append(needle.as_str());
            output.append("'. Call list_tags to see what exists.");
            return Err(ToolResult::ok(output, 0));
        },
    };
    let tags = TagScope::resolve(tree, scope);
    let readable = tags.readable(tag.tag.id.as_str());
    assert(readable == scope::may_read(scope::trees_of(tree@), *scope, tag@.id));
    if !readable {
        let mut subject = String::from_str("The wiki article for '");
        subject.append(tag.tag.name.as_str());
        subject.append("'");
        return Err(ToolResult::ok(reading::out_of_scope(subject.as_str()), 0));
    }
    Ok(Tag { id: tag.tag.id.clone(), name: tag.tag.name.clone() })
}

/// What reading an article makes of a ledger, and what the model is told. The
/// article's own markers, which count against its own sources, are taken out.
pub open spec fn wiki_read(
    args: JsonTree,
    id: Seq<char>,
    name: Seq<char>,
    wiki: Result<Option<WikiArticle>, String>,
    items: Seq<CitableView>,
    mints: bool,
) -> (Seq<CitableView>, ToolResultView) {
    let (offset, limit) = reading::paging(args);
    match wiki {
        Err(error) => (items, ToolResultView::failure(error@)),
        Ok(None) => (
            items,
            ToolResultView::found(
                "No wiki article exists for '"@ + name
                    + "' yet. Use search_atoms to read the atoms under the tag instead."@,
                0,
            ),
        ),
        Ok(Some(article)) => {
            let content = citations::without_markers(article.content@);
            let body = reading::window_body(content, offset as int, limit as int);
            let shown = reading::window_shown(content, offset as int, limit as int, "get_wiki"@);
            let (after, number) = citations::registered(
                items,
                mints,
                CitationSource::Wiki,
                id,
                None,
                reading::excerpt_of(body),
            );
            (
                after,
                ToolResultView::found(
                    reading::lead(number) + "(wiki article for tag: "@ + name + ", tag_id: "@ + id
                        + ", "@ + text::signed_decimal(article.atom_count as int)
                        + " atoms, updated "@ + article.updated_at@ + ")\n"@ + shown,
                    1,
                ),
            )
        },
    }
}

/// Reads the article of a tag that was decided upon.
pub fn get_wiki(
    args: &Json,
    tag: &Tag,
    wiki: Result<Option<WikiArticle>, String>,
    ledger: &mut CitationLedger,
) -> (result: ToolResult)
    requires
        old(ledger).well_formed(),
        old(ledger).has_room(),
    ensures
        final(ledger).well_formed(),
        final(ledger).admission() == old(ledger).admission(),
        (final(ledger)@, result@) == wiki_read(
            args@,
            tag.id@,
            tag.name@,
            wiki,
            old(ledger)@,
            is_open(*old(ledger)),
        ),
{
    let article = match wiki {
        Ok(Some(article)) => article,
        Ok(None) => {
            let mut output = String::from_str("No wiki article exists for '");
            output.append(tag.name.as_str());
            output.append("' yet. Use search_atoms to read the atoms under the tag instead.");
            return ToolResult::ok(output, 0);
        },
        Err(error) => {
            return ToolResult::failed(error.as_str());
        },
    };
    let (offset, limit) = reading::paging_args(args);
    let content = citations::strip_citation_markers(article.content.as_str());
    let window = reading::line_window(content.as_str(), offset, limit, "get_wiki");
    let excerpt = reading::excerpt(window.body.as_str());
    let number = ledger.register(CitationSource::Wiki, tag.id.as_str(), None, excerpt.as_str());
    let mut output = reading::citation_marker(number);
    output.append("(wiki article for tag: ");
    output.append(tag.name.as_str());
    output.append(", tag_id: ");
    output.append(tag.id.as_str());
    output.append(", ");
    text::push_signed(&mut output, article.atom_count as i64);
    output.append(" atoms, updated ");
    output.append(article.updated_at.as_str());
    output.append(")\n");
    output.append(window.rendered.as_str());
    ToolResult::ok(output, 1)
}

// ==================== list_reports / get_finding ====================

/// Reports that one listing shows.
pub const MAX_REPORTS: usize = 25;

/// A scheduled report.
#[derive(Debug, PartialEq)]
pub struct Report {
    pub id: String,
    pub name: String,
    pub schedule: String,
    pub enabled: bool,
    pub description: Option<String>,
}

/// A report's most recent finding.
#[derive(Debug, PartialEq)]
pub struct LatestFinding {
    pub atom_id: String,
    pub title: String,
    pub created_at: String,
}

/// The ids of the findings that could be loaded, in order.
pub open spec fn finding_ids_of(latest: Seq<Result<Option<LatestFinding>, String>>) -> Seq<
    Seq<char>,
>
    decreases latest.len(),
{
    if latest.len() == 0 {
        Seq::empty()
    } else {
        let before = finding_ids_of(latest.drop_last());
        match latest.last() {
            Ok(Some(finding)) => before.push(finding.atom_id@),
            _ => before,
        }
    }
}

/// The ids of the findings that could be loaded: those that the scope is asked
/// about.
pub fn finding_ids(latest: &Vec<Result<Option<LatestFinding>, String>>) -> (ids: Vec<String>)
    ensures
        text::texts(ids@) == finding_ids_of(latest@),
{
    let mut ids: Vec<String> = Vec::new();
    let mut at: usize = 0;
    assert(latest@.take(0) =~= Seq::empty());
    assert(text::texts(ids@) =~= Seq::empty());
    while at < latest.len()
        invariant
            at <= latest.len(),
            text::texts(ids@) == finding_ids_of(latest@.take(at as int)),
        decreases latest.len() - at,
    {
        proof {
            assert(latest@.take(at + 1).drop_last() =~= latest@.take(at as int));
        }
        let ghost before = ids@;
        if let Ok(Some(finding)) = &latest[at] {
            ids.push(finding.atom_id.clone());
            assert(text::texts(ids@) =~= text::texts(before).push(finding.atom_id@));
        }
        at = at + 1;
    }
    assert(latest@.take(at as int) =~= latest@);
    ids
}

/// What is shown of a report's most recent finding. A finding that the scope
/// does not admit is not named.
pub open spec fn finding_shown(
    latest: Result<Option<LatestFinding>, String>,
    admitted: Seq<Seq<char>>,
) -> Seq<char> {
    match latest {
        Ok(Some(finding)) => if admitted.contains(finding.atom_id@) {
            "\n  latest finding: "@ + (if finding.title@.len() == 0 {
                "(untitled)"@
            } else {
                finding.title@
            }) + " ("@ + finding.created_at@ + ", atom_id: "@ + finding.atom_id@ + ")"@
        } else {
            "\n  latest finding: outside this conversation's scope"@
        },
        Ok(None) => "\n  no findings yet"@,
        Err(error) => "\n  (could not load findings: "@ + error@ + ")"@,
    }
}

/// What is shown of a report.
pub open spec fn report_shown(
    report: Report,
    latest: Result<Option<LatestFinding>, String>,
    admitted: Seq<Seq<char>>,
) -> Seq<char> {
    report.name@ + " (report_id: "@ + report.id@ + ", schedule: "@ + report.schedule@ + (
    if report.enabled {
        ""@
    } else {
        ", disabled"@
    }) + ")"@ + (if report.description matches Some(description) && description@.len() > 0 {
        "\n  "@ + report.description->0@
    } else {
        ""@
    }) + finding_shown(latest, admitted) + "\n\n"@
}

/// What is shown of the first `n` reports.
pub open spec fn reports_shown(
    reports: Seq<Report>,
    latest: Seq<Result<Option<LatestFinding>, String>>,
    admitted: Seq<Seq<char>>,
    n: nat,
) -> Seq<char>
    decreases n,
{
    if n == 0 {
        Seq::empty()
    } else {
        reports_shown(reports, latest, admitted, (n - 1) as nat) + report_shown(
            reports[n - 1],
            latest[n - 1],
            admitted,
        )
    }
}

/// How many of so many reports are listed.
pub open spec fn listed_count(total: nat) -> nat {
    if total <= MAX_REPORTS {
        total
    } else {
        MAX_REPORTS as nat
    }
}

/// What the model is told of the reports.
pub open spec fn reports_listed(
    reports: Seq<Report>,
    latest: Seq<Result<Option<LatestFinding>, String>>,
    admitted: Result<Vec<String>, String>,
) -> ToolResultView {
    if reports.len() == 0 {
        ToolResultView::found("No research reports are configured."@, 0)
    } else {
        match admitted {
            Err(error) => ToolResultView::failure(error@),
            Ok(admitted) => {
                let n = listed_count(reports.len());
                let shown = reports_shown(reports, latest, text::texts(admitted@), n) + (
                if reports.len() > MAX_REPORTS {
                    "… "@ + text::decimal((reports.len() - MAX_REPORTS) as nat)
                        + " more reports\n"@
                } else {
                    ""@
                });
                ToolResultView::found(text::drop_back(shown, text::white()), n as i32)
            },
        }
    }
}

fn finding_text(latest: &Result<Option<LatestFinding>, String>, admitted: &Vec<String>) -> (shown:
    String)
    ensures
        shown@ == finding_shown(*latest, text::texts(admitted@)),
{
    match latest {
        Ok(Some(finding)) => if scope::holds(admitted, finding.atom_id.as_str()) {
            let mut shown = String::from_str("\n  latest finding: ");
            if finding.title.as_str().is_empty() {
                shown.append("(untitled)");
            } else {
                shown.append(finding.title.as_str());
            }
            shown.append(" (");
            shown.append(finding.created_at.as_str());
            shown.append(", atom_id: ");
            shown.append(finding.atom_id.as_str());
            shown.append(")");
            shown
        } else {
            String::from_str("\n  latest finding: outside this conversation's scope")
        },
        Ok(None) => String::from_str("\n  no findings yet"),
        Err(error) => {
            let mut shown = String::from_str("\n  (could not load findings: ");
            shown.append(error.as_str());
            shown.append(")");
            shown
        },
    }
}

fn report_text(
    report: &Report,
    latest: &Result<Option<LatestFinding>, String>,
    admitted: &Vec<String>,
) -> (shown: String)
    ensures
        shown@ == report_shown(*report, *latest, text::texts(admitted@)),
{
    let mut shown = report.name.clone();
    shown.append(" (report_id: ");
    shown.append(report.id.as_str());
    shown.append(", schedule: ");
    shown.append(report.schedule.as_str());
    shown.append(
        if report.enabled {
            ""
        } else {
            ", disabled"
        },
    );
    shown.append(")");
    let description = match &report.description {
        Some(description) => if description.as_str().is_empty() {
            String::from_str("")
        } else {
            String::from_str("\n  ").concat(description.as_str())
        },
        None => String::from_str(""),
    };
    shown.append(description.as_str());
    let finding = finding_text(latest, admitted);
    shown.append(finding.as_str());
    shown.append("\n\n");
    shown
}

/// Lists the scheduled reports, each with its most recent finding. `latest`
/// holds what loading the finding of each listed report came to, and
/// `admitted` those of the findings' ids that the scope admits. A report is
/// listed in any case, since its name and its schedule are no knowledge.
pub fn list_reports(
    reports: Result<Vec<Report>, String>,
    latest: &Vec<Result<Option<LatestFinding>, String>>,
    admitted: Result<Vec<String>, String>,
) -> (result: ToolResult)
    requires
        reports matches Ok(reports) ==> latest@.len() == listed_count(reports@.len()),
    ensures
        result@ == (match reports {
            Ok(reports) => reports_listed(reports@, latest@, admitted),
            Err(error) => ToolResultView::failure(error@),
        }),
{
    let reports = match reports {
        Ok(reports) => reports,
        Err(error) => {
            return ToolResult::failed(error.as_str());
        },
    };
    if reports.len() == 0 {
        return ToolResult::ok(String::from_str("No research reports are configured."), 0);
    }
    let admitted = match admitted {
        Ok(admitted) => admitted,
        Err(error) => {
            return ToolResult::failed(error.as_str());
        },
    };
    let n: usize = if reports.len() <= MAX_REPORTS {
        reports.len()
    } else {
        MAX_REPORTS
    };
    let mut out = String::new();
    let mut at: usize = 0;
    while at < n
        invariant
            at <= n <= reports.len(),
            n == latest@.len(),
            out@ == reports_shown(reports@, latest@, text::texts(admitted@), at as nat),
        decreases n - at,
    {
        let shown = report_text(&reports[at], &latest[at], &admitted);
        out.append(shown.as_str());
        at = at + 1;
    }
    if reports.len() > MAX_REPORTS {
        let mut rest = String::from_str("… ");
        text::push_decimal(&mut rest, (reports.len() - MAX_REPORTS) as u64);
        rest.append(" more reports\n");
        out.append(rest.as_str());
    } else {
        out.append("");
    }
    ToolResult::ok(text::strip_back(out.as_str(), &text::CharClass::White), n as i32)
}

/// A finding that the scope does not admit is not described: what is shown in
/// its place is the same for every such finding.
pub proof fn lemma_closed_finding_stays_closed(
    finding: LatestFinding,
    other: LatestFinding,
    admitted: Seq<Seq<char>>,
)
    requires
        !admitted.contains(finding.atom_id@),
        !admitted.contains(other.atom_id@),
    ensures
        finding_shown(Ok(Some(finding)), admitted) == finding_shown(Ok(Some(other)), admitted),
{
}

/// An atom as it is stored.
#[derive(Debug, PartialEq)]
pub struct StoredAtom {
    pub id: String,
    pub title: String,
    pub snippet: String,
    pub content: String,
    pub source_url: Option<String>,
    pub published_at: Option<String>,
    pub created_at: String,
    pub updated_at: String,
    /// Whether the atom is a finding of a report.
    pub is_report: bool,
    pub tags: Vec<Tag>,
}

/// What reading a finding makes of a ledger, and what the model is told.
/// Findings are atoms and scoped like atoms.
pub open spec fn finding_read(
    args: JsonTree,
    admitted: Result<bool, String>,
    finding: Result<Option<StoredAtom>, String>,
    report_name: Option<Seq<char>>,
    items: Seq<CitableView>,
    mints: bool,
) -> (Seq<CitableView>, ToolResultView) {
    let id = text_arg(args, "atom_id"@);
    let (offset, limit) = reading::paging(args);
    match admitted {
        Err(error) => (items, ToolResultView::failure(error@)),
        Ok(false) => (items, ToolResultView::found(reading::refusal("That finding"@), 0)),
        Ok(true) => match finding {
            Err(error) => (items, ToolResultView::failure(error@)),
            Ok(None) => (items, ToolResultView::found("Finding not found"@, 0)),
            Ok(Some(atom)) => if !atom.is_report {
                (
                    items,
                    ToolResultView::found(
                        "Atom "@ + id + " is not a report finding. Use get_atom to read it."@,
                        0,
                    ),
                )
            } else {
                let content = citations::without_markers(atom.content@);
                let body = reading::window_body(content, offset as int, limit as int);
                let shown = reading::window_shown(
                    content,
                    offset as int,
                    limit as int,
                    "get_finding"@,
                );
                let (after, number) = citations::registered(
                    items,
                    mints,
                    CitationSource::Finding,
                    id,
                    None,
                    reading::excerpt_of(body),
                );
                (
                    after,
                    ToolResultView::found(
                        reading::lead(number) + "(finding from report: "@ + (match report_name {
                            Some(name) => name,
                            None => "(unknown report)"@,
                        }) + ", atom_id: "@ + id + ", created "@ + atom.created_at@ + ")\n"@ + shown,
                        1,
                    ),
                )
            },
        },
    }
}

/// Reads a finding. `admitted` is what the scope says of it, `finding` what is
/// stored of it, and `report_name` the report it came from, where that is
/// known; the latter two are looked at only where the scope admits it.
pub fn get_finding(
    args: &Json,
    admitted: Result<bool, String>,
    finding: Result<Option<StoredAtom>, String>,
    report_name: Option<&str>,
    ledger: &mut CitationLedger,
) -> (result: ToolResult)
    requires
        old(ledger).well_formed(),
        old(ledger).has_room(),
    ensures
        final(ledger).well_formed(),
        final(ledger).admission() == old(ledger).admission(),
        (final(ledger)@, result@) == finding_read(
            args@,
            admitted,
            finding,
            text::optional_slice(report_name),
            old(ledger)@,
            is_open(*old(ledger)),
        ),
{
    let id = get_text_arg(args, "atom_id");
    match admitted {
        Err(error) => {
            return ToolResult::failed(error.as_str());
        },
        Ok(false) => {
            return ToolResult::ok(reading::out_of_scope("That finding"), 0);
        },
        Ok(true) => {},
    }
    let atom = match finding {
        Ok(Some(atom)) => atom,
        Ok(None) => {
            return ToolResult::ok(String::from_str("Finding not found"), 0);
        },
        Err(error) => {
            return ToolResult::failed(error.as_str());
        },
    };
    if !atom.is_report {
        let mut output = String::from_str("Atom ");
        output.append(id.as_str());
        output.append(" is not a report finding. Use get_atom to read it.");
        return ToolResult::ok(output, 0);
    }
    let (offset, limit) = reading::paging_args(args);
    let content = citations::strip_citation_markers(atom.content.as_str());
    let window = reading::line_window(content.as_str(), offset, limit, "get_finding");
    let excerpt = reading::excerpt(window.body.as_str());
    let number = ledger.register(CitationSource::Finding, id.as_str(), None, excerpt.as_str());
    let mut output = reading::citation_marker(number);
    output.append("(finding from report: ");
    match report_name {
        Some(name) => output.append(name),
        None => output.append("(unknown report)"),
    }
    output.append(", atom_id: ");
    output.append(id.as_str());
    output.append(", created ");
    output.append(atom.created_at.as_str());
    output.append(")\n");
    output.append(window.rendered.as_str());
    ToolResult::ok(output, 1)
}

// ==================== What a scope leaves of a listing ====================

/// Whether arguments name a tag whose sub-tags are to be listed.
pub open spec fn names_parent(args: JsonTree) -> bool {
    args.text_field("parent_id"@) matches Some(parent) && parent.len() > 0
}

/// A listing of the whole tree tells nothing of what may not be named: it is
/// the listing that a conversation without a scope gets of a knowledge base that
/// holds nothing but the tags that may be named.
pub proof fn lemma_a_scoped_listing_lists_what_is_visible(
    args: JsonTree,
    tree: Seq<TagTree>,
    scope: ScopeFilter,
    unscoped: ScopeFilter,
)
    requires
        !names_parent(args),
        unscoped.open(),
        scope::visible(tree, scope).len() > 0,
    ensures
        tags_listed(args, tree, scope) == tags_listed(
            args,
            scope::visible(tree, scope),
            unscoped,
        ),
{
}

/// Two knowledge bases of which a scope leaves the same are listed alike,
/// whatever else they hold, and where it leaves nothing the listing names no
/// tag.
pub proof fn lemma_hidden_tags_do_not_change_a_listing(
    args: JsonTree,
    tree: Seq<TagTree>,
    other: Seq<TagTree>,
    scope: ScopeFilter,
)
    requires
        !names_parent(args),
        scope::visible(tree, scope) == scope::visible(other, scope),
        tree.len() > 0 <==> other.len() > 0,
    ensures
        tags_listed(args, tree, scope) == tags_listed(args, other, scope),
        scope::visible(tree, scope).len() == 0 ==> tags_listed(args, tree, scope).results_count
            == 0,
{
}

/// What a listing says: how many tags it shows and, behind its heading, the
/// tags themselves.
pub proof fn lemma_a_listing_shows_the_visible_tags(
    args: JsonTree,
    tree: Seq<TagTree>,
    scope: ScopeFilter,
)
    requires
        !names_parent(args),
        scope::visible(tree, scope).len() > 0,
    ensures
        ({
            let result = tags_listed(args, tree, scope);
            let seen = scope::visible(tree, scope);
            &&& !result.failed
            &&& result.output == "Tags (counts include sub-tags):"@ + reading::level_shown(seen, 0)
            &&& result.results_count == reading::level_counted(seen, 0)
        }),
{
    reading::lemma_listing_is_bounded(scope::visible(tree, scope));
}

/// A listing of sub-tags goes by the tag that is asked for. One that may not be
/// named gets the same refusal in every knowledge base, and one that may gets
/// what the scope leaves of it.
pub proof fn lemma_a_closed_branch_is_not_listed(
    args: JsonTree,
    parent: Seq<char>,
    tree: Seq<TagTree>,
    other: Seq<TagTree>,
    scope: ScopeFilter,
    tag: TagTree,
    namesake: TagTree,
)
    requires
        args.text_field("parent_id"@) == Some(parent),
        parent.len() > 0,
        scope::named_tag(tree, parent) == Some(tag),
        scope::named_tag(other, parent) == Some(namesake),
        tag.id == namesake.id,
        tag.name == namesake.name,
        scope::may_list(tree, scope, tag.id) == scope::may_list(other, scope, tag.id),
        scope::may_list(tree, scope, tag.id) ==> scope::visible(tree, scope) == scope::visible(
            other,
            scope,
        ),
    ensures
        tags_listed(args, tree, scope) == tags_listed(args, other, scope),
        !scope::may_list(tree, scope, tag.id) ==> {
            &&& tags_listed(args, tree, scope).results_count == 0
            &&& tags_listed(args, tree, scope).output == reading::refusal(
                "'"@ + tag.name + "'"@,
            )
        },
        scope::may_list(tree, scope, tag.id) ==> match scope::named_tag(
            scope::visible(tree, scope),
            tag.id,
        ) {
            Some(kept) => tags_listed(args, tree, scope).output == "Sub-tags of "@ + kept.name
                + " (counts include sub-tags):"@ + reading::level_shown(seq![kept], 0),
            None => tags_listed(args, tree, scope).output == reading::refusal(
                "'"@ + tag.name + "'"@,
            ),
        },
{
}

/// An article is fetched only for a tag that arguments name and whose content
/// may be read. What is told in the place of any other tells nothing that is
/// stored: it goes by what was asked for and by the name of the tag.
pub proof fn lemma_articles_are_fetched_only_in_scope(
    args: JsonTree,
    tree: Seq<TagTree>,
    scope: ScopeFilter,
)
    ensures
        ({
            let needle = text::trimmed(
                match args.text_field("tag"@) {
                    Some(tag) => tag,
                    None => Seq::empty(),
                },
            );
            let tag = scope::named_tag(tree, needle);
            match wiki_asked(args, tree, scope) {
                Ok((id, name)) => {
                    &&& needle.len() > 0
                    &&& tag matches Some(tag)
                    &&& (id, name) == (tag.id, tag.name)
                    &&& scope::may_read(tree, scope, id)
                },
                Err(told) => {
                    &&& told.results_count == 0
                    &&& told.failed <==> needle.len() == 0
                    &&& needle.len() > 0 ==> match tag {
                        Some(tag) => {
                            &&& !scope::may_read(tree, scope, tag.id)
                            &&& told.output == reading::refusal(
                                "The wiki article for '"@ + tag.name + "'"@,
                            )
                        },
                        None => told.output == "No tag matches '"@ + needle
                            + "'. Call list_tags to see what exists."@,
                    }
                },
            }
        }),
{
}

// ==================== What the tools tell ====================

/// Arguments are read by name: a text field is its text, one that is missing or
/// no text is empty, and an optional one that is empty counts as missing.
pub proof fn lemma_arguments_are_read_by_name(args: JsonTree, key: Seq<char>, text: Seq<char>)
    ensures
        args.field(key) == Some(JsonTree::Text(text)) ==> text_arg(args, key) == text,
        args.field(key) is None ==> text_arg(args, key).len() == 0,
        not_empty(None) is None,
        text.len() > 0 ==> not_empty(Some(text)) == Some(text),
        text.len() == 0 ==> not_empty(Some(text)) is None,
{
}

/// A search returns as many results as its `limit` says, five where it does not
/// say, and goes back as many days as `since_days` says if that is any.
pub proof fn lemma_a_search_asks_for_what_its_arguments_say(args: JsonTree, n: u64)
    requires
        n <= i32::MAX,
    ensures
        args.field("limit"@) is None ==> search_limit(args) == 5,
        args.field("limit"@) == Some(JsonTree::Natural(n)) ==> search_limit(args) == n,
        args.field("limit"@) matches Some(JsonTree::Negative(below)) ==> (i32::MIN <= below < 0
            ==> search_limit(args) == below),
        (args.field("limit"@) matches Some(value) && value.signed() is None) ==> search_limit(args)
            == 5,
        args.field("since_days"@) matches Some(JsonTree::Natural(days)) ==> (days > i32::MAX
            ==> search_days(args) == Some(i32::MAX)),
        args.field("since_days"@) matches Some(JsonTree::Fraction(number)) ==> search_days(args) == (
        match outside::integer_part(number) {
            Some(days) if days > 0 => Some(days),
            _ => None,
        }),
        (args.field("since_days"@) matches Some(value) && !(value is Natural) && !(
        value is Fraction)) ==> search_days(args) is None,
        args.field("since_days"@) is None ==> search_days(args) is None,
        args.field("since_days"@) == Some(JsonTree::Natural(n)) ==> search_days(args) == if n > 0 {
            Some(n as i32)
        } else {
            None
        },
{
}

/// Whether `number` cites the source `id` in a ledger.
pub open spec fn cites(
    items: Seq<CitableView>,
    number: Option<i32>,
    source: CitationSource,
    id: Seq<char>,
) -> bool {
    number matches Some(number) ==> 1 <= number <= items.len() && items[number - 1].source == source
        && items[number - 1].source_id == id
}

/// Every result of a search is shown, in order: its chunk in full, with its
/// atom's id and its score, led by the number that cites that atom. In a run that
/// admits evidence every result has such a number, and what was citable before
/// keeps its number.
pub proof fn lemma_every_hit_is_shown_with_its_number(
    items: Seq<CitableView>,
    mints: bool,
    hits: Seq<SearchHit>,
    n: nat,
    k: int,
) -> (number: Option<i32>)
    requires
        citations::is_ledger(items),
        items.len() + hits.len() < i32::MAX,
        n <= hits.len(),
        0 <= k < n,
    ensures
        ({
            let (after, shown) = hits_shown(items, mints, hits, n);
            &&& citations::is_ledger(after)
            &&& items.len() <= after.len() <= items.len() + n
            &&& after.take(items.len() as int) == items
            &&& shown.len() == n
            &&& shown[k] == reading::lead(number) + "(atom_id: "@ + hits[k].atom_id@
                + ", similarity: "@ + hits[k].similarity@ + ")\n"@ + hits[k].content@
            &&& cites(after, number, CitationSource::Atom, hits[k].atom_id@)
            &&& mints ==> number is Some
        }),
    decreases n,
{
    let m = (n - 1) as nat;
    let (before, early) = hits_shown(items, mints, hits, m);
    lemma_hits_grow(items, mints, hits, m);
    let hit = hits[m as int];
    let (after, number) = citations::registered(
        before,
        mints,
        CitationSource::Atom,
        hit.atom_id@,
        Some(hit.chunk_index),
        reading::excerpt_of(hit.content@),
    );
    citations::lemma_ledger_only_grows(
        before,
        mints,
        CitationSource::Atom,
        hit.atom_id@,
        Some(hit.chunk_index),
        reading::excerpt_of(hit.content@),
    );
    citations::lemma_evidence_is_kept_as_given(
        before,
        mints,
        CitationSource::Atom,
        hit.atom_id@,
        Some(hit.chunk_index),
        reading::excerpt_of(hit.content@),
    );
    assert(after.take(items.len() as int) =~= before.take(items.len() as int));
    if k == m {
        number
    } else {
        let number = lemma_every_hit_is_shown_with_its_number(items, mints, hits, m, k);
        assert(hits_shown(items, mints, hits, n).1[k] == early[k]);
        if let Some(number) = number {
            assert(after[number - 1] == before[number - 1]) by {
                assert(after.take(before.len() as int)[number - 1] == before[number - 1]);
            }
        }
        number
    }
}

proof fn lemma_hits_grow(items: Seq<CitableView>, mints: bool, hits: Seq<SearchHit>, n: nat)
    requires
        citations::is_ledger(items),
        items.len() + hits.len() < i32::MAX,
        n <= hits.len(),
    ensures
        ({
            let (after, shown) = hits_shown(items, mints, hits, n);
            &&& citations::is_ledger(after)
            &&& items.len() <= after.len() <= items.len() + n
            &&& after.take(items.len() as int) == items
            &&& shown.len() == n
        }),
    decreases n,
{
    if n == 0 {
        assert(items.take(items.len() as int) =~= items);
    } else {
        let m = (n - 1) as nat;
        lemma_hits_grow(items, mints, hits, m);
        let (before, early) = hits_shown(items, mints, hits, m);
        let hit = hits[m as int];
        let (after, number) = citations::registered(
            before,
            mints,
            CitationSource::Atom,
            hit.atom_id@,
            Some(hit.chunk_index),
            reading::excerpt_of(hit.content@),
        );
        citations::lemma_ledger_only_grows(
            before,
            mints,
            CitationSource::Atom,
            hit.atom_id@,
            Some(hit.chunk_index),
            reading::excerpt_of(hit.content@),
        );
        assert(after.take(items.len() as int) =~= before.take(items.len() as int));
    }
}

/// An atom that the scope admits is shown by its lines, with the id that was
/// asked for and led by the number that cites it; what is stored with the number
/// is the start of what was shown. One that is not there, or that cannot be
/// fetched, is told as that and cites nothing.
pub proof fn lemma_an_atom_is_shown_with_its_number(
    args: JsonTree,
    id: Seq<char>,
    content: Result<Option<String>, String>,
    items: Seq<CitableView>,
    mints: bool,
)
    requires
        args.text_field("atom_id"@) == Some(id),
        citations::is_ledger(items),
        items.len() + 1 < i32::MAX,
    ensures
        ({
            let (after, told) = atom_read(args, Ok(true), content, items, mints);
            let (offset, limit) = reading::paging(args);
            match content {
                Ok(Some(content)) => exists|number: Option<i32>|
                    #![trigger reading::lead(number)]
                    {
                        &&& told.output == reading::lead(number) + "(atom_id: "@ + id + ")\n"@
                            + reading::window_shown(
                            content@,
                            offset as int,
                            limit as int,
                            "get_atom"@,
                        )
                        &&& cites(after, number, CitationSource::Atom, id)
                        &&& mints ==> number is Some
                        &&& after.len() > items.len() ==> after.last().excerpt
                            == reading::excerpt_of(
                            reading::window_body(content@, offset as int, limit as int),
                        )
                        &&& after.take(items.len() as int) == items
                        &&& !told.failed && told.results_count == 1
                    },
                Ok(None) => after == items && !told.failed && told.results_count == 0
                    && told.output == "Atom not found"@,
                Err(error) => after == items && told.failed && told.output == "Error: "@ + error@,
            }
        }),
{
    if let Ok(Some(content)) = content {
        let (offset, limit) = reading::paging(args);
        let body = reading::window_body(content@, offset as int, limit as int);
        let excerpt = reading::excerpt_of(body);
        let (after, number) = citations::registered(
            items,
            mints,
            CitationSource::Atom,
            id,
            None,
            excerpt,
        );
        citations::lemma_ledger_only_grows(items, mints, CitationSource::Atom, id, None, excerpt);
        citations::lemma_evidence_is_kept_as_given(
            items,
            mints,
            CitationSource::Atom,
            id,
            None,
            excerpt,
        );
        let lead = reading::lead(number);
        assert(cites(after, number, CitationSource::Atom, id));
    }
}

/// What the scope does not admit is refused by name alone, and what cannot be
/// asked of the scope fails; neither cites anything.
pub proof fn lemma_a_closed_atom_is_refused(
    args: JsonTree,
    id: Seq<char>,
    content: Result<Option<String>, String>,
    error: String,
    items: Seq<CitableView>,
    mints: bool,
)
    requires
        args.text_field("atom_id"@) == Some(id),
    ensures
        atom_read(args, Ok(false), content, items, mints).0 == items,
        atom_read(args, Ok(false), content, items, mints).1.output == reading::refusal(
            "Atom "@ + id,
        ),
        atom_read(args, Ok(false), content, items, mints).1.results_count == 0,
        atom_read(args, Err(error), content, items, mints).0 == items,
        atom_read(args, Err(error), content, items, mints).1.failed,
{
}

/// An article is shown without its own markers, by its lines, with its tag and
/// led by the number that cites it as an article of that tag.
pub proof fn lemma_an_article_is_shown_with_its_number(
    args: JsonTree,
    id: Seq<char>,
    name: Seq<char>,
    article: WikiArticle,
    items: Seq<CitableView>,
    mints: bool,
) -> (number: Option<i32>)
    requires
        citations::is_ledger(items),
        items.len() + 1 < i32::MAX,
    ensures
        ({
            let (after, told) = wiki_read(args, id, name, Ok(Some(article)), items, mints);
            let (offset, limit) = reading::paging(args);
            let shown = reading::window_shown(
                citations::without_markers(article.content@),
                offset as int,
                limit as int,
                "get_wiki"@,
            );
            &&& cites(after, number, CitationSource::Wiki, id)
            &&& mints ==> number is Some
            &&& after.take(items.len() as int) == items
            &&& told.output.len() >= shown.len()
            &&& told.output.skip(told.output.len() - shown.len()) == shown
            &&& told.output.take(reading::lead(number).len() as int) == reading::lead(number)
            &&& text::has_text(told.output, "tag_id: "@ + id + ", "@)
            &&& !told.failed && told.results_count == 1
        }),
{
    let (after, told) = wiki_read(args, id, name, Ok(Some(article)), items, mints);
    let (offset, limit) = reading::paging(args);
    let content = citations::without_markers(article.content@);
    let shown = reading::window_shown(content, offset as int, limit as int, "get_wiki"@);
    let excerpt = reading::excerpt_of(
        reading::window_body(content, offset as int, limit as int),
    );
    let (kept, number) = citations::registered(
        items,
        mints,
        CitationSource::Wiki,
        id,
        None,
        excerpt,
    );
    citations::lemma_ledger_only_grows(items, mints, CitationSource::Wiki, id, None, excerpt);
    citations::lemma_evidence_is_kept_as_given(
        items,
        mints,
        CitationSource::Wiki,
        id,
        None,
        excerpt,
    );
    let lead = reading::lead(number);
    reveal_strlit(", tag_id: ");
    reveal_strlit("tag_id: ");
    reveal_strlit(", ");
    assert(", tag_id: "@ =~= ", "@ + "tag_id: "@);
    let front = lead + "(wiki article for tag: "@ + name + ", "@;
    let middle = "tag_id: "@ + id + ", "@;
    let back = text::signed_decimal(article.atom_count as int) + " atoms, updated "@
        + article.updated_at@ + ")\n"@ + shown;
    assert(told.output =~= front + middle + back);
    text::lemma_text_within(front, middle, back);
    assert(told.output.skip(told.output.len() - shown.len()) =~= shown);
    assert(told.output.take(lead.len() as int) =~= lead);
    number
}

/// A finding that the scope admits is shown without its own markers, by its
/// lines, and led by the number that cites it as a finding; an atom that is no
/// finding is not, and cites nothing.
pub proof fn lemma_a_finding_is_shown_with_its_number(
    args: JsonTree,
    id: Seq<char>,
    finding: StoredAtom,
    report_name: Option<Seq<char>>,
    items: Seq<CitableView>,
    mints: bool,
) -> (number: Option<i32>)
    requires
        args.text_field("atom_id"@) == Some(id),
        citations::is_ledger(items),
        items.len() + 1 < i32::MAX,
    ensures
        ({
            let (after, told) = finding_read(
                args,
                Ok(true),
                Ok(Some(finding)),
                report_name,
                items,
                mints,
            );
            let (offset, limit) = reading::paging(args);
            let shown = reading::window_shown(
                citations::without_markers(finding.content@),
                offset as int,
                limit as int,
                "get_finding"@,
            );
            &&& finding.is_report ==> {
                &&& cites(after, number, CitationSource::Finding, id)
                &&& mints ==> number is Some
                &&& after.take(items.len() as int) == items
                &&& told.output.len() >= shown.len()
                &&& told.output.skip(told.output.len() - shown.len()) == shown
                &&& told.output.take(reading::lead(number).len() as int) == reading::lead(number)
                &&& report_name matches Some(name) ==> text::has_text(told.output, name)
                &&& !told.failed && told.results_count == 1
            }
            &&& !finding.is_report ==> after == items && told.results_count == 0
        }),
{
    let (after, told) = finding_read(args, Ok(true), Ok(Some(finding)), report_name, items, mints);
    let (offset, limit) = reading::paging(args);
    let content = citations::without_markers(finding.content@);
    let shown = reading::window_shown(content, offset as int, limit as int, "get_finding"@);
    let excerpt = reading::excerpt_of(
        reading::window_body(content, offset as int, limit as int),
    );
    let (kept, number) = citations::registered(
        items,
        mints,
        CitationSource::Finding,
        id,
        None,
        excerpt,
    );
    citations::lemma_ledger_only_grows(items, mints, CitationSource::Finding, id, None, excerpt);
    citations::lemma_evidence_is_kept_as_given(
        items,
        mints,
        CitationSource::Finding,
        id,
        None,
        excerpt,
    );
    if finding.is_report {
        let lead = reading::lead(number);
        let name = match report_name {
            Some(name) => name,
            None => "(unknown report)"@,
        };
        let front = lead + "(finding from report: "@;
        let back = ", atom_id: "@ + id + ", created "@ + finding.created_at@ + ")\n"@ + shown;
        assert(told.output =~= front + name + back);
        text::lemma_text_within(front, name, back);
        assert(told.output.skip(told.output.len() - shown.len()) =~= shown);
        assert(told.output.take(lead.len() as int) =~= lead);
    }
    number
}

/// A finding that the scope does not admit stays closed: what is told does not
/// depend on what is stored, and nothing becomes citable.
pub proof fn lemma_a_closed_finding_is_not_read(
    args: JsonTree,
    finding: Result<Option<StoredAtom>, String>,
    other: Result<Option<StoredAtom>, String>,
    name: Option<Seq<char>>,
    other_name: Option<Seq<char>>,
    items: Seq<CitableView>,
    mints: bool,
)
    ensures
        finding_read(args, Ok(false), finding, name, items, mints) == finding_read(
            args,
            Ok(false),
            other,
            other_name,
            items,
            mints,
        ),
        finding_read(args, Ok(false), finding, name, items, mints).0 == items,
        finding_read(args, Ok(false), finding, name, items, mints).1.results_count == 0,
{
}

/// A report is listed by its name, its id and its schedule, with the most recent
/// finding where the scope admits that, and with a word that it is disabled only
/// where it is.
pub proof fn lemma_a_report_is_listed_as_it_is(
    report: Report,
    latest: Result<Option<LatestFinding>, String>,
    admitted: Seq<Seq<char>>,
)
    ensures
        text::has_text(
            report_shown(report, latest, admitted),
            report.name@ + " (report_id: "@ + report.id@ + ", schedule: "@ + report.schedule@ + (
            if report.enabled {
                ""@
            } else {
                ", disabled"@
            }) + ")"@,
        ),
        text::has_text(
            report_shown(report, latest, admitted),
            finding_shown(latest, admitted),
        ),
        latest matches Ok(Some(finding)) ==> (admitted.contains(finding.atom_id@)
            ==> text::has_text(
            finding_shown(latest, admitted),
            "atom_id: "@ + finding.atom_id@ + ")"@,
        )),
{
    let none = Seq::<char>::empty();
    let whole = report_shown(report, latest, admitted);
    let head = report.name@ + " (report_id: "@ + report.id@ + ", schedule: "@ + report.schedule@ + (
    if report.enabled {
        ""@
    } else {
        ", disabled"@
    }) + ")"@;
    let note = if report.description matches Some(description) && description@.len() > 0 {
        "\n  "@ + report.description->0@
    } else {
        ""@
    };
    let shown = finding_shown(latest, admitted);
    let tail = "\n\n"@;
    assert(whole =~= none + head + (note + shown + tail));
    text::lemma_text_within(none, head, note + shown + tail);
    assert(whole =~= (head + note) + shown + tail);
    text::lemma_text_within(head + note, shown, tail);
    if let Ok(Some(finding)) = latest {
        if admitted.contains(finding.atom_id@) {
            reveal_strlit(", atom_id: ");
            reveal_strlit("atom_id: ");
            reveal_strlit(", ");
            assert(", atom_id: "@ =~= ", "@ + "atom_id: "@);
            let front = "\n  latest finding: "@ + (if finding.title@.len() == 0 {
                "(untitled)"@
            } else {
                finding.title@
            }) + " ("@ + finding.created_at@ + ", "@;
            let needle = "atom_id: "@ + finding.atom_id@ + ")"@;
            assert(shown =~= front + needle + none);
            text::lemma_text_within(front, needle, none);
        }
    }
}

proof fn lemma_reports_have_each(
    reports: Seq<Report>,
    latest: Seq<Result<Option<LatestFinding>, String>>,
    admitted: Seq<Seq<char>>,
    n: nat,
    i: int,
)
    requires
        0 <= i < n,
    ensures
        text::has_text(
            reports_shown(reports, latest, admitted, n),
            report_shown(reports[i], latest[i], admitted),
        ),
    decreases n,
{
    let m = (n - 1) as nat;
    let early = reports_shown(reports, latest, admitted, m);
    let last = report_shown(reports[n - 1], latest[n - 1], admitted);
    let whole = reports_shown(reports, latest, admitted, n);
    let none = Seq::<char>::empty();
    if i == m {
        assert(whole =~= early + last + none);
        text::lemma_text_within(early, last, none);
    } else {
        lemma_reports_have_each(reports, latest, admitted, m, i);
        assert(whole =~= none + early + last);
        text::lemma_text_within(none, early, last);
        text::lemma_text_in_text(report_shown(reports[i], latest[i], admitted), early, whole);
    }
}

/// A listing of reports shows the first twenty-five, each with its own finding,
/// and counts those that it shows; a failure to ask the scope is told as one.
pub proof fn lemma_every_report_is_listed(
    reports: Seq<Report>,
    latest: Seq<Result<Option<LatestFinding>, String>>,
    admitted: Vec<String>,
    error: String,
    i: int,
)
    requires
        0 <= i < reports.len(),
        i < 25,
    ensures
        ({
            let told = reports_listed(reports, latest, Ok(admitted));
            let n = if reports.len() <= 25 {
                reports.len()
            } else {
                25
            };
            let shown = reports_shown(reports, latest, text::texts(admitted@), n);
            &&& !told.failed
            &&& told.results_count == n
            &&& text::has_text(
                shown,
                report_shown(reports[i], latest[i], text::texts(admitted@)),
            )
            &&& reports.len() <= 25 ==> told.output == text::drop_back(shown, text::white())
            &&& reports.len() > 25 ==> told.output == text::drop_back(
                shown + "… "@ + text::decimal((reports.len() - 25) as nat) + " more reports\n"@,
                text::white(),
            )
        }),
        reports_listed(reports, latest, Err(error)).failed,
{
    let n = listed_count(reports.len());
    let list = text::texts(admitted@);
    lemma_reports_have_each(reports, latest, list, n, i);
    if reports.len() <= 25 {
        reveal_strlit("");
        let shown = reports_shown(reports, latest, list, n);
        assert(shown + ""@ =~= shown);
    } else {
        let shown = reports_shown(reports, latest, list, n);
        let more = "… "@ + text::decimal((reports.len() - 25) as nat) + " more reports\n"@;
        assert(shown + more =~= shown + "… "@ + text::decimal((reports.len() - 25) as nat)
            + " more reports\n"@);
    }
}

/// The scope is asked about every finding that could be loaded, in order.
pub proof fn lemma_every_loaded_finding_is_asked_about(
    first: Seq<Result<Option<LatestFinding>, String>>,
    last: Result<Option<LatestFinding>, String>,
)
    ensures
        finding_ids_of(Seq::empty()).len() == 0,
        finding_ids_of(first.push(last)) == match last {
            Ok(Some(finding)) => finding_ids_of(first).push(finding.atom_id@),
            _ => finding_ids_of(first),
        },
{
    assert(first.push(last).drop_last() =~= first);
}

/// What a listing says where it lists nothing: that no tag goes by what was
/// asked for, that there are no tags at all, or that the scope admits none. And
/// what it says over what it lists: whose tags they are.
pub proof fn lemma_a_listing_says_what_it_lists(
    args: JsonTree,
    tree: Seq<TagTree>,
    scope: ScopeFilter,
    needle: Seq<char>,
)
    ensures
        args.field("parent_id"@) == Some(JsonTree::Text(needle)) && needle.len() > 0 ==> {
            let told = tags_listed(args, tree, scope);
            &&& !told.failed
            &&& scope::named_tag(tree, needle) is None ==> told.results_count == 0 && told.output
                == "No tag matches '"@ + needle
                + "'. Call list_tags with no arguments to see the top of the tree."@
            &&& scope::named_tag(tree, needle) matches Some(tag) ==> {
                &&& !scope::may_list(tree, scope, tag.id) ==> told.results_count == 0
                    && told.output == "'"@ + tag.name + "'"@
                    + " is outside this conversation's scope, so it can't be read here. The scope is fixed for this conversation — work from what is in scope, or tell the user what you would need them to add."@
                &&& scope::may_list(tree, scope, tag.id) ==> (scope::named_tag(
                    scope::visible(tree, scope),
                    tag.id,
                ) matches Some(kept) ==> told.output == "Sub-tags of "@ + kept.name
                    + " (counts include sub-tags):"@ + reading::level_shown(seq![kept], 0))
            }
        },
        args.field("parent_id"@) is None ==> {
            let told = tags_listed(args, tree, scope);
            let seen = scope::visible(tree, scope);
            &&& !told.failed
            &&& seen.len() > 0 ==> told.output == "Tags (counts include sub-tags):"@
                + reading::level_shown(seen, 0)
            &&& seen.len() == 0 ==> told.results_count == 0
            &&& seen.len() == 0 && tree.len() == 0 ==> told.output
                == "This knowledge base has no tags yet."@
            &&& seen.len() == 0 && tree.len() > 0 ==> told.output
                == "No tags are within this conversation's scope."@
        },
{
}

/// An article is told with its tag, how many atoms it draws on and when it was
/// updated; one that is not written yet, or could not be loaded, is told as
/// that, and cites nothing.
pub proof fn lemma_an_article_is_told_as_it_is(
    args: JsonTree,
    id: Seq<char>,
    name: Seq<char>,
    article: WikiArticle,
    error: String,
    items: Seq<CitableView>,
    mints: bool,
)
    ensures
        ({
            let (after, told) = wiki_read(args, id, name, Ok(None), items, mints);
            &&& after == items
            &&& !told.failed && told.results_count == 0
            &&& told.output == "No wiki article exists for '"@ + name
                + "' yet. Use search_atoms to read the atoms under the tag instead."@
        }),
        ({
            let (after, told) = wiki_read(args, id, name, Err(error), items, mints);
            &&& after == items
            &&& told.failed && told.results_count == 0
            &&& told.output == "Error: "@ + error@
        }),
        ({
            let told = wiki_read(args, id, name, Ok(Some(article)), items, mints).1;
            text::has_text(
                told.output,
                "(wiki article for tag: "@ + name + ", tag_id: "@ + id + ", "@
                    + text::signed_decimal(article.atom_count as int) + " atoms, updated "@
                    + article.updated_at@ + ")\n"@,
            )
        }),
{
    let (offset, limit) = reading::paging(args);
    let content = citations::without_markers(article.content@);
    let body = reading::window_body(content, offset as int, limit as int);
    let shown = reading::window_shown(content, offset as int, limit as int, "get_wiki"@);
    let number = citations::registered(
        items,
        mints,
        CitationSource::Wiki,
        id,
        None,
        reading::excerpt_of(body),
    ).1;
    let heading = "(wiki article for tag: "@ + name + ", tag_id: "@ + id + ", "@
        + text::signed_decimal(article.atom_count as int) + " atoms, updated "@
        + article.updated_at@ + ")\n"@;
    let told = wiki_read(args, id, name, Ok(Some(article)), items, mints).1;
    text::lemma_text_within(reading::lead(number), heading, shown);
    assert(told.output =~= reading::lead(number) + heading + shown);
}


} // verus!
