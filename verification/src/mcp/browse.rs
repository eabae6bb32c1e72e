//! The tools that list: tags, atoms, wiki articles and reports. What they fetch
//! is handed to them.

use crate::chat_tools::lookup::StoredAtom;
use crate::chat_tools::scope;
use crate::chat_tools::scope::Lookup;
use crate::chat_tools::scope::Tag;
use crate::chat_tools::scope::TagTree;
use crate::chat_tools::scope::TagWithCount;
use crate::mcp::reads;
use crate::mcp::reads::Answer;
use crate::mcp::reads::KindFilter;
use crate::mcp::types::AtomListItem;
use crate::mcp::types::AtomListResponse;
use crate::mcp::types::FindingCitationItem;
use crate::mcp::types::GetReportFindingsParams;
use crate::mcp::types::GetWikiParams;
use crate::mcp::types::ListAtomsToolParams;
use crate::mcp::types::ListTagsParams;
use crate::mcp::types::ReportFindingItem;
use crate::mcp::types::ReportListItem;
use crate::mcp::types::TagNode;
use crate::mcp::types::WikiCitationItem;
use crate::mcp::types::WikiListItem;
use crate::mcp::types::WikiResponse;
use crate::text;
use vstd::prelude::*;

verus! {

// ==================== Tags ====================

/// How many atoms a leaf tag needs to be listed.
pub fn least_count(params: &ListTagsParams) -> (n: i32)
    ensures
        n == reads::clamped(params.min_count, 0, 0, i32::MAX),
{
    reads::clamp(params.min_count, 0, 0, i32::MAX)
}

/// Whether a node of the wire shows a tag and all that is below it.
pub open spec fn shows_tag(node: TagNode, tag: TagTree) -> bool
    decreases node,
{
    &&& node.tag_id@ == tag.id
    &&& node.name@ == tag.name
    &&& node.atom_count == tag.atom_count
    &&& shows_tags(node.children@, tag.children)
}

/// Whether nodes show tags one by one.
pub open spec fn shows_tags(nodes: Seq<TagNode>, tags: Seq<TagTree>) -> bool
    decreases nodes,
{
    &&& nodes.len() == tags.len()
    &&& forall|i: int| 0 <= i < nodes.len() ==> shows_tag(#[trigger] nodes[i], tags[i])
}

/// Maps a tree of tags into the shape of the wire.
pub fn tag_tree(nodes: &Vec<TagWithCount>) -> (shown: Vec<TagNode>)
    ensures
        shows_tags(shown@, scope::trees_of(nodes@)),
        shown@.len() == nodes@.len(),
        forall|i: int|
            0 <= i < nodes@.len() ==> {
                &&& (#[trigger] shown@[i]).tag_id@ == nodes@[i].tag.id@
                &&& shown@[i].name@ == nodes@[i].tag.name@
                &&& shown@[i].atom_count == nodes@[i].atom_count
                &&& shown@[i].children@.len() == nodes@[i].children@.len()
                &&& shows_tags(shown@[i].children@, scope::trees_of(nodes@[i].children@))
            },
    decreases nodes,
{
    let ghost all = scope::trees_of(nodes@);
    proof {
        scope::lemma_trees_of(nodes@);
    }
    let mut shown: Vec<TagNode> = Vec::new();
    let mut at: usize = 0;
    while at < nodes.len()
        invariant
            at <= nodes.len(),
            shown@.len() == at,
            all.len() == nodes@.len(),
            forall|i: int| 0 <= i < all.len() ==> #[trigger] all[i] == scope::tree_of(nodes@[i]),
            forall|i: int| 0 <= i < at ==> shows_tag(#[trigger] shown@[i], all[i]),
            forall|i: int|
                0 <= i < at ==> {
                    &&& (#[trigger] shown@[i]).tag_id@ == nodes@[i].tag.id@
                    &&& shown@[i].name@ == nodes@[i].tag.name@
                    &&& shown@[i].atom_count == nodes@[i].atom_count
                    &&& shown@[i].children@.len() == nodes@[i].children@.len()
                    &&& shows_tags(shown@[i].children@, scope::trees_of(nodes@[i].children@))
                },
        decreases nodes.len() - at,
    {
        let node = &nodes[at];
        proof {
            assert(decreases_to!(*nodes => nodes@));
            assert(decreases_to!(nodes@ => nodes@[at as int]));
            assert(decreases_to!(nodes@[at as int] => nodes@[at as int].children));
        }
        let children = tag_tree(&node.children);
        let item = TagNode {
            tag_id: node.tag.id.clone(),
            name: node.tag.name.clone(),
            atom_count: node.atom_count,
            children,
        };
        assert(all[at as int] == scope::tree_of(nodes@[at as int]));
        assert(shows_tag(item, all[at as int]));
        shown.push(item);
        at = at + 1;
    }
    shown
}

// ==================== Atoms ====================

/// What atoms are ordered by.
#[derive(Debug, Clone, Copy, PartialEq, Eq, Structural)]
pub enum SortField {
    Created,
    Updated,
}

/// Which end of an order comes first.
#[derive(Debug, Clone, Copy, PartialEq, Eq, Structural)]
pub enum SortOrder {
    Asc,
    Desc,
}

/// A page of atoms to fetch.
#[derive(Debug, PartialEq)]
pub struct AtomPageRequest {
    pub tag_id: Option<String>,
    pub limit: i32,
    pub offset: i32,
    pub kinds: KindFilter,
    /// The one source whose atoms are wanted; atoms of every source where there
    /// is none.
    pub source: Option<String>,
    pub sort_by: SortField,
    pub sort_order: SortOrder,
}

/// What a listing of atoms asks for: atoms of every source, the most recently
/// updated first.
pub fn list_atoms_request(params: ListAtomsToolParams) -> (request: AtomPageRequest)
    ensures
        text::optional(request.tag_id) == text::optional(params.tag_id),
        request.limit == reads::clamped(params.limit, 20, 1, 100),
        request.offset == reads::clamped(params.offset, 0, 0, i32::MAX),
        request.kinds == reads::kinds_of(params.include_generated),
        request.source is None,
        request.sort_by == SortField::Updated,
        request.sort_order == SortOrder::Desc,
{
    AtomPageRequest {
        tag_id: params.tag_id,
        limit: reads::clamp(params.limit, 20, 1, 100),
        offset: reads::clamp(params.offset, 0, 0, i32::MAX),
        kinds: reads::pick_kinds(params.include_generated),
        source: None,
        sort_by: SortField::Updated,
        sort_order: SortOrder::Desc,
    }
}

/// An atom as a page holds it.
#[derive(Debug, PartialEq)]
pub struct AtomSummary {
    pub id: String,
    pub title: String,
    pub snippet: String,
    pub tags: Vec<Tag>,
    pub source_url: Option<String>,
    pub created_at: String,
    pub updated_at: String,
}

pub open spec fn shows_atom(item: AtomListItem, atom: AtomSummary) -> bool {
    &&& item.atom_id@ == atom.id@
    &&& item.title@ == atom.title@
    &&& item.snippet@ == atom.snippet@
    &&& text::texts(item.tags@) == reads::tag_names(atom.tags@)
    &&& text::optional(item.source_url) == text::optional(atom.source_url)
    &&& item.created_at@ == atom.created_at@
    &&& item.updated_at@ == atom.updated_at@
}

/// Shows a page of atoms. There are more where the page ends before the last
/// one.
pub fn list_atoms(offset: i32, page: &Vec<AtomSummary>, total_count: i32) -> (response:
    AtomListResponse)
    ensures
        response.atoms@.len() == page@.len(),
        forall|i: int|
            0 <= i < page@.len() ==> shows_atom(#[trigger] response.atoms@[i], page@[i]),
        response.total_count == total_count,
        response.offset == offset,
        response.has_more == (offset + page@.len() < total_count),
{
    let mut atoms: Vec<AtomListItem> = Vec::new();
    let mut at: usize = 0;
    while at < page.len()
        invariant
            at <= page.len(),
            atoms@.len() == at,
            forall|i: int| 0 <= i < at ==> shows_atom(#[trigger] atoms@[i], page@[i]),
        decreases page.len() - at,
    {
        let atom = &page[at];
        atoms.push(
            AtomListItem {
                atom_id: atom.id.clone(),
                title: atom.title.clone(),
                snippet: atom.snippet.clone(),
                tags: reads::names_of(&atom.tags),
                source_url: text::copy_optional(&atom.source_url),
                created_at: atom.created_at.clone(),
                updated_at: atom.updated_at.clone(),
            },
        );
        at = at + 1;
    }
    let has_more = (offset as i128) + (page.len() as i128) < (total_count as i128);
    AtomListResponse { atoms, total_count, offset, has_more }
}

// ==================== Wiki articles ====================

/// A wiki article as a listing holds it.
#[derive(Debug, PartialEq)]
pub struct WikiSummary {
    pub tag_id: String,
    pub tag_name: String,
    pub atom_count: i32,
    pub updated_at: String,
}

pub open spec fn shows_wiki(item: WikiListItem, article: WikiSummary) -> bool {
    &&& item.tag_id@ == article.tag_id@
    &&& item.tag_name@ == article.tag_name@
    &&& item.atom_count == article.atom_count
    &&& item.updated_at@ == article.updated_at@
}

pub fn list_wikis(articles: &Vec<WikiSummary>) -> (items: Vec<WikiListItem>)
    ensures
        items@.len() == articles@.len(),
        forall|i: int| 0 <= i < items@.len() ==> shows_wiki(#[trigger] items@[i], articles@[i]),
{
    let mut items: Vec<WikiListItem> = Vec::new();
    let mut at: usize = 0;
    while at < articles.len()
        invariant
            at <= articles.len(),
            items@.len() == at,
            forall|i: int| 0 <= i < at ==> shows_wiki(#[trigger] items@[i], articles@[i]),
        decreases articles.len() - at,
    {
        let article = &articles[at];
        items.push(
            WikiListItem {
                tag_id: article.tag_id.clone(),
                tag_name: article.tag_name.clone(),
                atom_count: article.atom_count,
                updated_at: article.updated_at.clone(),
            },
        );
        at = at + 1;
    }
    items
}

/// Finds the tag whose article is asked for, by id or by name whatever its
/// case; or says that there is none.
pub fn wiki_tag<'a>(params: &GetWikiParams, tags: &'a Vec<TagWithCount>) -> (found: Result<
    &'a TagWithCount,
    String,
>)
    ensures
        match scope::first_match(scope::trees_of(tags@), Lookup::IdOrFoldedName, params.tag@) {
            Some(tag) => found matches Ok(node) && node@ == tag,
            None => found matches Err(text) && text@ == "Tag not found: "@ + params.tag@
                + " (use list_tags to see available tags)"@,
        },
{
    match scope::find_tag(tags, Lookup::IdOrFoldedName, params.tag.as_str()) {
        Some(node) => Ok(node),
        None => {
            let mut text = String::from_str("Tag not found: ");
            text.append(params.tag.as_str());
            text.append(" (use list_tags to see available tags)");
            Err(text)
        },
    }
}

/// A citation of a wiki article.
#[derive(Debug, PartialEq)]
pub struct WikiCitation {
    pub citation_index: i32,
    pub atom_id: String,
    pub excerpt: String,
    pub source_url: Option<String>,
}

/// A wiki article.
#[derive(Debug, PartialEq)]
pub struct WikiWithCitations {
    pub tag_id: String,
    pub content: String,
    pub atom_count: i32,
    pub updated_at: String,
    pub citations: Vec<WikiCitation>,
}

pub open spec fn shows_citation(item: WikiCitationItem, citation: WikiCitation) -> bool {
    &&& item.citation_index == citation.citation_index
    &&& item.atom_id@ == citation.atom_id@
    &&& item.excerpt@ == citation.excerpt@
    &&& text::optional(item.source_url) == text::optional(citation.source_url)
}

/// Shows the article of a tag, or says that there is none yet.
pub fn get_wiki(tag_name: &str, wiki: Result<Option<WikiWithCitations>, String>) -> (answer: Result<
    Answer<WikiResponse>,
    String,
>)
    ensures
        match wiki {
            Err(error) => answer matches Err(text) && text@ == error@,
            Ok(None) => answer matches Ok(Answer::Sentence(text)) && text@
                == "No wiki article exists for tag '"@ + tag_name@
                + "' yet. Wiki articles are generated in the Atomic app; atoms under the tag can still be browsed with list_atoms or semantic_search."@,
            Ok(Some(wiki)) => {
                &&& answer matches Ok(Answer::Payload(shown))
                &&& shown.tag_id@ == wiki.tag_id@
                &&& shown.tag_name@ == tag_name@
                &&& shown.content@ == wiki.content@
                &&& shown.atom_count == wiki.atom_count
                &&& shown.updated_at@ == wiki.updated_at@
                &&& shown.citations@.len() == wiki.citations@.len()
                &&& forall|i: int|
                    0 <= i < wiki.citations@.len() ==> shows_citation(
                        #[trigger] shown.citations@[i],
                        wiki.citations@[i],
                    )
            },
        },
{
    let wiki = match wiki {
        Err(error) => {
            return Err(error);
        },
        Ok(None) => {
            let mut text = String::from_str("No wiki article exists for tag '");
            text.append(tag_name);
            text.append(
                "' yet. Wiki articles are generated in the Atomic app; atoms under the tag can still be browsed with list_atoms or semantic_search.",
            );
            return Ok(Answer::Sentence(text));
        },
        Ok(Some(wiki)) => wiki,
    };
    let mut citations: Vec<WikiCitationItem> = Vec::new();
    let mut at: usize = 0;
    while at < wiki.citations.len()
        invariant
            at <= wiki.citations.len(),
            citations@.len() == at,
            forall|i: int|
                0 <= i < at ==> shows_citation(#[trigger] citations@[i], wiki.citations@[i]),
        decreases wiki.citations.len() - at,
    {
        let citation = &wiki.citations[at];
        citations.push(
            WikiCitationItem {
                citation_index: citation.citation_index,
                atom_id: citation.atom_id.clone(),
                excerpt: citation.excerpt.clone(),
                source_url: text::copy_optional(&citation.source_url),
            },
        );
        at = at + 1;
    }
    Ok(
        Answer::Payload(
            WikiResponse {
                tag_id: wiki.tag_id,
                tag_name: tag_name.to_owned(),
                content: wiki.content,
                atom_count: wiki.atom_count,
                updated_at: wiki.updated_at,
                citations,
            },
        ),
    )
}

// ==================== Reports ====================

/// A report as it is configured.
#[derive(Debug, PartialEq)]
pub struct ReportInfo {
    pub id: String,
    pub name: String,
    pub description: Option<String>,
    pub schedule: String,
    pub schedule_tz: Option<String>,
    pub enabled: bool,
    pub last_run_at: Option<String>,
    pub last_error: Option<String>,
}

pub open spec fn shows_report(item: ReportListItem, report: ReportInfo) -> bool {
    &&& item.report_id@ == report.id@
    &&& item.name@ == report.name@
    &&& text::optional(item.description) == text::optional(report.description)
    &&& item.schedule@ == report.schedule@
    &&& text::optional(item.schedule_tz) == text::optional(report.schedule_tz)
    &&& item.enabled == report.enabled
    &&& text::optional(item.last_run_at) == text::optional(report.last_run_at)
    &&& text::optional(item.last_error) == text::optional(report.last_error)
}

pub fn list_reports(reports: &Vec<ReportInfo>) -> (items: Vec<ReportListItem>)
    ensures
        items@.len() == reports@.len(),
        forall|i: int| 0 <= i < items@.len() ==> shows_report(#[trigger] items@[i], reports@[i]),
{
    let mut items: Vec<ReportListItem> = Vec::new();
    let mut at: usize = 0;
    while at < reports.len()
        invariant
            at <= reports.len(),
            items@.len() == at,
            forall|i: int| 0 <= i < at ==> shows_report(#[trigger] items@[i], reports@[i]),
        decreases reports.len() - at,
    {
        let report = &reports[at];
        items.push(
            ReportListItem {
                report_id: report.id.clone(),
                name: report.name.clone(),
                description: text::copy_optional(&report.description),
                schedule: report.schedule.clone(),
                schedule_tz: text::copy_optional(&report.schedule_tz),
                enabled: report.enabled,
                last_run_at: text::copy_optional(&report.last_run_at),
                last_error: text::copy_optional(&report.last_error),
            },
        );
        at = at + 1;
    }
    items
}

/// How many findings of a report are read.
pub fn findings_limit(params: &GetReportFindingsParams) -> (limit: i32)
    ensures
        limit == reads::clamped(params.limit, 3, 1, 10),
{
    reads::clamp(params.limit, 3, 1, 10)
}

/// A citation of a finding.
#[derive(Debug, PartialEq)]
pub struct FindingCitation {
    pub position: i32,
    pub cited_atom_id: String,
    pub excerpt: String,
}

/// A finding, with the atom that holds it and its citations as far as they
/// could be read.
#[derive(Debug, PartialEq)]
pub struct FetchedFinding {
    pub report_name: String,
    pub created_at: String,
    pub atom: StoredAtom,
    pub citations: Result<Vec<FindingCitation>, String>,
}

pub open spec fn shows_source(item: FindingCitationItem, citation: FindingCitation) -> bool {
    &&& item.position == citation.position
    &&& item.cited_atom_id@ == citation.cited_atom_id@
    &&& item.excerpt@ == citation.excerpt@
}

/// Whether an item shows a finding whose citations could be read.
pub open spec fn shows_finding(item: ReportFindingItem, finding: FetchedFinding) -> bool {
    &&& item.atom_id@ == finding.atom.id@
    &&& item.title@ == finding.atom.title@
    &&& item.report_name@ == finding.report_name@
    &&& item.created_at@ == finding.created_at@
    &&& item.content@ == finding.atom.content@
    &&& finding.citations matches Ok(citations)
    &&& item.citations@.len() == citations@.len()
    &&& forall|i: int|
        0 <= i < citations@.len() ==> shows_source(#[trigger] item.citations@[i], citations@[i])
}

/// The first finding whose citations could not be read.
pub open spec fn first_unread(findings: Seq<FetchedFinding>) -> Option<Seq<char>>
    decreases findings.len(),
{
    if findings.len() == 0 {
        None
    } else {
        match findings[0].citations {
            Err(error) => Some(error@),
            Ok(_) => first_unread(findings.skip(1)),
        }
    }
}

fn show_sources(citations: &Vec<FindingCitation>) -> (items: Vec<FindingCitationItem>)
    ensures
        items@.len() == citations@.len(),
        forall|i: int| 0 <= i < items@.len() ==> shows_source(#[trigger] items@[i], citations@[i]),
{
    let mut items: Vec<FindingCitationItem> = Vec::new();
    let mut at: usize = 0;
    while at < citations.len()
        invariant
            at <= citations.len(),
            items@.len() == at,
            forall|i: int| 0 <= i < at ==> shows_source(#[trigger] items@[i], citations@[i]),
        decreases citations.len() - at,
    {
        let citation = &citations[at];
        items.push(
            FindingCitationItem {
                position: citation.position,
                cited_atom_id: citation.cited_atom_id.clone(),
                excerpt: citation.excerpt.clone(),
            },
        );
        at = at + 1;
    }
    items
}

fn show_findings(findings: &Vec<FetchedFinding>) -> (shown: Result<Vec<ReportFindingItem>, String>)
    ensures
        match first_unread(findings@) {
            Some(error) => shown matches Err(text) && text@ == error,
            None => {
                &&& shown matches Ok(items)
                &&& items@.len() == findings@.len()
                &&& forall|i: int|
                    0 <= i < items@.len() ==> shows_finding(#[trigger] items@[i], findings@[i])
            },
        },
{
    let mut items: Vec<ReportFindingItem> = Vec::new();
    let mut at: usize = 0;
    assert(findings@.skip(0) =~= findings@);
    while at < findings.len()
        invariant
            at <= findings.len(),
            items@.len() == at,
            first_unread(findings@) == first_unread(findings@.skip(at as int)),
            forall|i: int| 0 <= i < at ==> shows_finding(#[trigger] items@[i], findings@[i]),
        decreases findings.len() - at,
    {
        let finding = &findings[at];
        proof {
            assert(findings@.skip(at as int)[0] == findings@[at as int]);
            assert(findings@.skip(at as int).skip(1) =~= findings@.skip(at + 1));
        }
        let citations = match &finding.citations {
            Ok(citations) => show_sources(citations),
            Err(error) => {
                return Err(error.clone());
            },
        };
        items.push(
            ReportFindingItem {
                atom_id: finding.atom.id.clone(),
                title: finding.atom.title.clone(),
                report_name: finding.report_name.clone(),
                created_at: finding.created_at.clone(),
                content: finding.atom.content.clone(),
                citations,
            },
        );
        at = at + 1;
    }
    Ok(items)
}

/// Shows the findings of a report. `exists_report` is whether there is such a
/// report. Where the citations of one finding could not be read, nothing is
/// shown.
pub fn get_report_findings(
    params: &GetReportFindingsParams,
    exists_report: Result<bool, String>,
    findings: Result<Vec<FetchedFinding>, String>,
) -> (answer: Result<Answer<Vec<ReportFindingItem>>, String>)
    ensures
        match exists_report {
            Err(error) => answer matches Err(text) && text@ == error@,
            Ok(false) => answer matches Ok(Answer::Sentence(text)) && text@ == "Report not found: "@
                + params.report_id@ + " (use list_reports to see available reports)"@,
            Ok(true) => match findings {
                Err(error) => answer matches Err(text) && text@ == error@,
                Ok(findings) => match first_unread(findings@) {
                    Some(error) => answer matches Err(text) && text@ == error,
                    None => {
                        &&& answer matches Ok(Answer::Payload(items))
                        &&& items@.len() == findings@.len()
                        &&& forall|i: int|
                            0 <= i < items@.len() ==> shows_finding(
                                #[trigger] items@[i],
                                findings@[i],
                            )
                    },
                },
            },
        },
{
    match exists_report {
        Err(error) => {
            return Err(error);
        },
        Ok(false) => {
            let mut text = String::from_str("Report not found: ");
            text.append(params.report_id.as_str());
            text.append(" (use list_reports to see available reports)");
            return Ok(Answer::Sentence(text));
        },
        Ok(true) => {},
    }
    let findings = match findings {
        Ok(findings) => findings,
        Err(error) => {
            return Err(error);
        },
    };
    match show_findings(&findings) {
        Ok(items) => Ok(Answer::Payload(items)),
        Err(error) => Err(error),
    }
}

// ==================== What listings show ====================

/// A listing shows each tag under its own id and name, with its own atoms and
/// all of the tags below it, in order.
pub proof fn lemma_a_tag_is_shown_as_it_is(node: TagNode, tag: TagTree, i: int)
    requires
        shows_tag(node, tag),
    ensures
        node.tag_id@ == tag.id,
        node.name@ == tag.name,
        node.atom_count == tag.atom_count,
        node.children@.len() == tag.children.len(),
        0 <= i < node.children@.len() ==> shows_tag(node.children@[i], tag.children[i]),
{
}

/// A listing shows each atom, each article, each report and each finding as it
/// is: every field is the one of the same name.
pub proof fn lemma_items_are_shown_as_they_are(
    item: AtomListItem,
    atom: AtomSummary,
    page: WikiListItem,
    article: WikiSummary,
    source: WikiCitationItem,
    citation: WikiCitation,
    entry: ReportListItem,
    report: ReportInfo,
)
    ensures
        shows_atom(item, atom) <==> {
            &&& item.atom_id@ == atom.id@
            &&& item.title@ == atom.title@
            &&& item.snippet@ == atom.snippet@
            &&& text::texts(item.tags@) == reads::tag_names(atom.tags@)
            &&& text::optional(item.source_url) == text::optional(atom.source_url)
            &&& item.created_at@ == atom.created_at@
            &&& item.updated_at@ == atom.updated_at@
        },
        shows_wiki(page, article) <==> {
            &&& page.tag_id@ == article.tag_id@
            &&& page.tag_name@ == article.tag_name@
            &&& page.atom_count == article.atom_count
            &&& page.updated_at@ == article.updated_at@
        },
        shows_citation(source, citation) <==> {
            &&& source.citation_index == citation.citation_index
            &&& source.atom_id@ == citation.atom_id@
            &&& source.excerpt@ == citation.excerpt@
            &&& text::optional(source.source_url) == text::optional(citation.source_url)
        },
        shows_report(entry, report) <==> {
            &&& entry.report_id@ == report.id@
            &&& entry.name@ == report.name@
            &&& text::optional(entry.description) == text::optional(report.description)
            &&& entry.schedule@ == report.schedule@
            &&& text::optional(entry.schedule_tz) == text::optional(report.schedule_tz)
            &&& entry.enabled == report.enabled
            &&& text::optional(entry.last_run_at) == text::optional(report.last_run_at)
            &&& text::optional(entry.last_error) == text::optional(report.last_error)
        },
{
}

/// A finding is shown with its atom's content and all of its citations, in
/// order, each as it is.
pub proof fn lemma_a_finding_is_shown_as_it_is(
    item: ReportFindingItem,
    finding: FetchedFinding,
    source: FindingCitationItem,
    citation: FindingCitation,
    i: int,
)
    ensures
        shows_finding(item, finding) ==> {
            &&& item.atom_id@ == finding.atom.id@
            &&& item.title@ == finding.atom.title@
            &&& item.report_name@ == finding.report_name@
            &&& item.created_at@ == finding.created_at@
            &&& item.content@ == finding.atom.content@
            &&& finding.citations matches Ok(citations)
            &&& item.citations@.len() == citations@.len()
            &&& 0 <= i < citations@.len() ==> shows_source(item.citations@[i], citations@[i])
        },
        shows_source(source, citation) <==> {
            &&& source.position == citation.position
            &&& source.cited_atom_id@ == citation.cited_atom_id@
            &&& source.excerpt@ == citation.excerpt@
        },
{
}

/// Findings are shown exactly where the citations of all of them could be read,
/// and else the first failure is told.
pub proof fn lemma_the_first_failure_is_told(findings: Seq<FetchedFinding>) -> (k: int)
    ensures
        match first_unread(findings) {
            Some(told) => {
                &&& 0 <= k < findings.len()
                &&& findings[k].citations matches Err(error)
                &&& error@ == told
                &&& forall|i: int| 0 <= i < k ==> (#[trigger] findings[i]).citations is Ok
            },
            None => forall|i: int|
                0 <= i < findings.len() ==> (#[trigger] findings[i]).citations is Ok,
        },
    decreases findings.len(),
{
    if findings.len() == 0 || findings[0].citations is Err {
        0
    } else {
        let rest = findings.skip(1);
        let k = lemma_the_first_failure_is_told(rest);
        assert forall|i: int| 1 <= i < findings.len() implies #[trigger] findings[i] == rest[i
            - 1] by {}
        k + 1
    }
}

} // verus!
