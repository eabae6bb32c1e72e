//! The tools that the server offers, and what it tells clients of them.

use crate::text;
use vstd::prelude::*;

verus! {

/// What the server tells agents to do with it.
pub const INSTRUCTIONS: &'static str = "Atomic is your long-term memory. Search before answering from recall. Remember what's worth retaining. Update what's gone stale. Beyond raw notes: list_tags shows how knowledge is organized, get_wiki returns a synthesized overview of a topic with citations, and get_report_findings returns the output of scheduled research reports.";

pub const SEMANTIC_SEARCH_DESCRIPTION: &'static str = "Search your memory for relevant knowledge. Use this before answering questions that may relate to previously stored information. Returns matching atoms ranked by relevance. Set since_days to constrain to recent atoms (e.g., 7 for last week, 30 for last month) when the question is time-sensitive. Set tag_id to scope the search to one topic, and include_generated=true to also search report findings.";

pub const READ_ATOM_DESCRIPTION: &'static str = "Read the full content of a specific atom. Use this after semantic_search returns a relevant result and you need the complete text. Supports pagination for large atoms.";

pub const FIND_SIMILAR_DESCRIPTION: &'static str = "Find atoms semantically related to a given atom. Use this to traverse the knowledge graph outward from a relevant atom — surfacing connected ideas that a keyword search would miss.";

pub const LIST_TAGS_DESCRIPTION: &'static str = "List the tag tree that organizes this knowledge base, with per-tag atom counts. Use it to discover topics, to find tag IDs for scoped searches (semantic_search tag_id), for tagging atoms (update_atom tag_ids), and for wiki lookups (get_wiki). Set min_count to prune rarely-used leaf tags.";

pub const LIST_ATOMS_DESCRIPTION: &'static str = "Browse atoms as a paginated list, most recently updated first. Set tag_id (from list_tags) to browse one topic, including atoms under descendant tags. Returns summaries only — use read_atom for full content.";

pub const LIST_DATABASES_DESCRIPTION: &'static str = "List the knowledge databases available to this connection and which one tool calls currently operate on. The database is selected by the connection URL (?db=<id>) or the X-Atomic-Database header — tool calls cannot switch it, but this shows the user's options.";

pub const LIST_WIKIS_DESCRIPTION: &'static str = "List the wiki articles in this knowledge base. Wikis are synthesized overviews of everything stored under a tag, with citations back to source atoms. Use get_wiki to read one.";

pub const GET_WIKI_DESCRIPTION: &'static str = "Read the synthesized wiki article for a tag — a curated overview of everything stored under that topic. Prefer this over piecing together many search results when the user asks for a summary of a topic. Inline [N] markers in the content resolve to the returned citations. Accepts a tag ID or exact tag name.";

pub const LIST_REPORTS_DESCRIPTION: &'static str = "List the automated research reports configured in this knowledge base. Reports run on a schedule and write their findings back as atoms. Use get_report_findings to read a report's output.";

pub const GET_REPORT_FINDINGS_DESCRIPTION: &'static str = "Read the most recent findings a report produced. Each finding is a research write-up whose inline [N] markers resolve to the returned citations pointing at source atoms.";

pub const CREATE_ATOM_DESCRIPTION: &'static str = "Remember something new. Create an atom when you learn information worth retaining across conversations — user preferences, decisions, project context, or important facts. Write concise, self-contained markdown.";

pub const INGEST_URL_DESCRIPTION: &'static str = "Fetch a URL, extract its article content, and save it as an atom. Use this when the user asks to remember, save, or ingest a web page. If the URL already exists as an atom source_url, returns the existing atom_id with already_exists=true instead of creating a duplicate.";

pub const UPDATE_ATOM_DESCRIPTION: &'static str = "Compatibility full/partial atom update. Omitted fields are preserved. Content is optional so callers can update metadata or tag_ids (from list_tags) without rewriting markdown. Prefer edit_atom for content changes unless replacing the whole atom intentionally.";

pub const EDIT_ATOM_DESCRIPTION: &'static str = "Apply safe edits to an existing atom. Supports replace, insert_after, append, and replace_all. replace and insert_after require exact text that appears exactly once. The whole operation fails without saving if any edit is invalid. Prefer this over update_atom for markdown changes.";

pub const SEARCH_DESCRIPTION: &'static str = "Search the knowledge base and return matching documents. Alias of semantic_search in the search/fetch document shape.";

pub const FETCH_DESCRIPTION: &'static str = "Fetch the full content of a document returned by search. Alias of read_atom in the search/fetch document shape.";

/// A tool of the server.
#[derive(Debug, Clone, Copy, PartialEq, Eq, Structural)]
pub enum McpTool {
    SemanticSearch,
    ReadAtom,
    FindSimilar,
    ListTags,
    ListAtoms,
    ListDatabases,
    ListWikis,
    GetWiki,
    ListReports,
    GetReportFindings,
    CreateAtom,
    IngestUrl,
    UpdateAtom,
    EditAtom,
    Search,
    Fetch,
}

/// What clients may rely on of a tool.
#[derive(Debug, Clone, Copy, PartialEq, Eq, Structural)]
pub struct Annotations {
    /// It changes nothing.
    pub read_only: bool,
    /// It may change or remove what is there.
    pub destructive: Option<bool>,
    /// Doing it twice is doing it once.
    pub idempotent: Option<bool>,
    /// It reaches beyond the knowledge base.
    pub open_world: bool,
}

/// All tools, in the order in which they are listed.
pub open spec fn all_tools() -> Seq<McpTool> {
    seq![
        McpTool::SemanticSearch,
        McpTool::ReadAtom,
        McpTool::FindSimilar,
        McpTool::ListTags,
        McpTool::ListAtoms,
        McpTool::ListDatabases,
        McpTool::ListWikis,
        McpTool::GetWiki,
        McpTool::ListReports,
        McpTool::GetReportFindings,
        McpTool::CreateAtom,
        McpTool::IngestUrl,
        McpTool::UpdateAtom,
        McpTool::EditAtom,
        McpTool::Search,
        McpTool::Fetch,
    ]
}

impl McpTool {
    /// The name that clients call the tool by.
    pub open spec fn called(self) -> Seq<char> {
        match self {
            McpTool::SemanticSearch => "semantic_search"@,
            McpTool::ReadAtom => "read_atom"@,
            McpTool::FindSimilar => "find_similar"@,
            McpTool::ListTags => "list_tags"@,
            McpTool::ListAtoms => "list_atoms"@,
            McpTool::ListDatabases => "list_databases"@,
            McpTool::ListWikis => "list_wikis"@,
            McpTool::GetWiki => "get_wiki"@,
            McpTool::ListReports => "list_reports"@,
            McpTool::GetReportFindings => "get_report_findings"@,
            McpTool::CreateAtom => "create_atom"@,
            McpTool::IngestUrl => "ingest_url"@,
            McpTool::UpdateAtom => "update_atom"@,
            McpTool::EditAtom => "edit_atom"@,
            McpTool::Search => "search"@,
            McpTool::Fetch => "fetch"@,
        }
    }

    pub fn name(self) -> (name: &'static str)
        ensures
            name@ == self.called(),
            name@ == (match self {
                McpTool::SemanticSearch => "semantic_search"@,
                McpTool::ReadAtom => "read_atom"@,
                McpTool::FindSimilar => "find_similar"@,
                McpTool::ListTags => "list_tags"@,
                McpTool::ListAtoms => "list_atoms"@,
                McpTool::ListDatabases => "list_databases"@,
                McpTool::ListWikis => "list_wikis"@,
                McpTool::GetWiki => "get_wiki"@,
                McpTool::ListReports => "list_reports"@,
                McpTool::GetReportFindings => "get_report_findings"@,
                McpTool::CreateAtom => "create_atom"@,
                McpTool::IngestUrl => "ingest_url"@,
                McpTool::UpdateAtom => "update_atom"@,
                McpTool::EditAtom => "edit_atom"@,
                McpTool::Search => "search"@,
                McpTool::Fetch => "fetch"@,
            }),
    {
        match self {
            McpTool::SemanticSearch => "semantic_search",
            McpTool::ReadAtom => "read_atom",
            McpTool::FindSimilar => "find_similar",
            McpTool::ListTags => "list_tags",
            McpTool::ListAtoms => "list_atoms",
            McpTool::ListDatabases => "list_databases",
            McpTool::ListWikis => "list_wikis",
            McpTool::GetWiki => "get_wiki",
            McpTool::ListReports => "list_reports",
            McpTool::GetReportFindings => "get_report_findings",
            McpTool::CreateAtom => "create_atom",
            McpTool::IngestUrl => "ingest_url",
            McpTool::UpdateAtom => "update_atom",
            McpTool::EditAtom => "edit_atom",
            McpTool::Search => "search",
            McpTool::Fetch => "fetch",
        }
    }

    /// The title that users see.
    pub open spec fn titled(self) -> Seq<char> {
        match self {
            McpTool::SemanticSearch => "Search memory"@,
            McpTool::ReadAtom => "Read atom"@,
            McpTool::FindSimilar => "Find similar atoms"@,
            McpTool::ListTags => "List tags"@,
            McpTool::ListAtoms => "List atoms"@,
            McpTool::ListDatabases => "List databases"@,
            McpTool::ListWikis => "List wiki articles"@,
            McpTool::GetWiki => "Read wiki article"@,
            McpTool::ListReports => "List reports"@,
            McpTool::GetReportFindings => "Read report findings"@,
            McpTool::CreateAtom => "Create atom"@,
            McpTool::IngestUrl => "Save web page"@,
            McpTool::UpdateAtom => "Update atom"@,
            McpTool::EditAtom => "Edit atom"@,
            McpTool::Search => "Search"@,
            McpTool::Fetch => "Fetch"@,
        }
    }

    pub fn title(self) -> (title: &'static str)
        ensures
            title@ == self.titled(),
            title@ == (match self {
                McpTool::SemanticSearch => "Search memory"@,
                McpTool::ReadAtom => "Read atom"@,
                McpTool::FindSimilar => "Find similar atoms"@,
                McpTool::ListTags => "List tags"@,
                McpTool::ListAtoms => "List atoms"@,
                McpTool::ListDatabases => "List databases"@,
                McpTool::ListWikis => "List wiki articles"@,
                McpTool::GetWiki => "Read wiki article"@,
                McpTool::ListReports => "List reports"@,
                McpTool::GetReportFindings => "Read report findings"@,
                McpTool::CreateAtom => "Create atom"@,
                McpTool::IngestUrl => "Save web page"@,
                McpTool::UpdateAtom => "Update atom"@,
                McpTool::EditAtom => "Edit atom"@,
                McpTool::Search => "Search"@,
                McpTool::Fetch => "Fetch"@,
            }),
    {
        match self {
            McpTool::SemanticSearch => "Search memory",
            McpTool::ReadAtom => "Read atom",
            McpTool::FindSimilar => "Find similar atoms",
            McpTool::ListTags => "List tags",
            McpTool::ListAtoms => "List atoms",
            McpTool::ListDatabases => "List databases",
            McpTool::ListWikis => "List wiki articles",
            McpTool::GetWiki => "Read wiki article",
            McpTool::ListReports => "List reports",
            McpTool::GetReportFindings => "Read report findings",
            McpTool::CreateAtom => "Create atom",
            McpTool::IngestUrl => "Save web page",
            McpTool::UpdateAtom => "Update atom",
            McpTool::EditAtom => "Edit atom",
            McpTool::Search => "Search",
            McpTool::Fetch => "Fetch",
        }
    }

    /// What agents are told that the tool does.
    pub open spec fn described(self) -> Seq<char> {
        match self {
            McpTool::SemanticSearch => SEMANTIC_SEARCH_DESCRIPTION@,
            McpTool::ReadAtom => READ_ATOM_DESCRIPTION@,
            McpTool::FindSimilar => FIND_SIMILAR_DESCRIPTION@,
            McpTool::ListTags => LIST_TAGS_DESCRIPTION@,
            McpTool::ListAtoms => LIST_ATOMS_DESCRIPTION@,
            McpTool::ListDatabases => LIST_DATABASES_DESCRIPTION@,
            McpTool::ListWikis => LIST_WIKIS_DESCRIPTION@,
            McpTool::GetWiki => GET_WIKI_DESCRIPTION@,
            McpTool::ListReports => LIST_REPORTS_DESCRIPTION@,
            McpTool::GetReportFindings => GET_REPORT_FINDINGS_DESCRIPTION@,
            McpTool::CreateAtom => CREATE_ATOM_DESCRIPTION@,
            McpTool::IngestUrl => INGEST_URL_DESCRIPTION@,
            McpTool::UpdateAtom => UPDATE_ATOM_DESCRIPTION@,
            McpTool::EditAtom => EDIT_ATOM_DESCRIPTION@,
            McpTool::Search => SEARCH_DESCRIPTION@,
            McpTool::Fetch => FETCH_DESCRIPTION@,
        }
    }

    pub fn description(self) -> (description: &'static str)
        ensures
            description@ == self.described(),
            description@ == (match self {
                McpTool::SemanticSearch => SEMANTIC_SEARCH_DESCRIPTION@,
                McpTool::ReadAtom => READ_ATOM_DESCRIPTION@,
                McpTool::FindSimilar => FIND_SIMILAR_DESCRIPTION@,
                McpTool::ListTags => LIST_TAGS_DESCRIPTION@,
                McpTool::ListAtoms => LIST_ATOMS_DESCRIPTION@,
                McpTool::ListDatabases => LIST_DATABASES_DESCRIPTION@,
                McpTool::ListWikis => LIST_WIKIS_DESCRIPTION@,
                McpTool::GetWiki => GET_WIKI_DESCRIPTION@,
                McpTool::ListReports => LIST_REPORTS_DESCRIPTION@,
                McpTool::GetReportFindings => GET_REPORT_FINDINGS_DESCRIPTION@,
                McpTool::CreateAtom => CREATE_ATOM_DESCRIPTION@,
                McpTool::IngestUrl => INGEST_URL_DESCRIPTION@,
                McpTool::UpdateAtom => UPDATE_ATOM_DESCRIPTION@,
                McpTool::EditAtom => EDIT_ATOM_DESCRIPTION@,
                McpTool::Search => SEARCH_DESCRIPTION@,
                McpTool::Fetch => FETCH_DESCRIPTION@,
            }),
    {
        match self {
            McpTool::SemanticSearch => SEMANTIC_SEARCH_DESCRIPTION,
            McpTool::ReadAtom => READ_ATOM_DESCRIPTION,
            McpTool::FindSimilar => FIND_SIMILAR_DESCRIPTION,
            McpTool::ListTags => LIST_TAGS_DESCRIPTION,
            McpTool::ListAtoms => LIST_ATOMS_DESCRIPTION,
            McpTool::ListDatabases => LIST_DATABASES_DESCRIPTION,
            McpTool::ListWikis => LIST_WIKIS_DESCRIPTION,
            McpTool::GetWiki => GET_WIKI_DESCRIPTION,
            McpTool::ListReports => LIST_REPORTS_DESCRIPTION,
            McpTool::GetReportFindings => GET_REPORT_FINDINGS_DESCRIPTION,
            McpTool::CreateAtom => CREATE_ATOM_DESCRIPTION,
            McpTool::IngestUrl => INGEST_URL_DESCRIPTION,
            McpTool::UpdateAtom => UPDATE_ATOM_DESCRIPTION,
            McpTool::EditAtom => EDIT_ATOM_DESCRIPTION,
            McpTool::Search => SEARCH_DESCRIPTION,
            McpTool::Fetch => FETCH_DESCRIPTION,
        }
    }

    /// Whether the tool writes to the knowledge base.
    pub open spec fn writes(self) -> bool {
        match self {
            McpTool::CreateAtom | McpTool::IngestUrl | McpTool::UpdateAtom | McpTool::EditAtom => true,
            _ => false,
        }
    }

    /// What clients may rely on. A tool that only reads is said to be
    /// read-only, so that clients that ask before an action do not ask for it.
    pub fn annotations(self) -> (hints: Annotations)
        ensures
            hints.read_only == !self.writes(),
            hints.destructive == (if self.writes() {
                Some(self == McpTool::UpdateAtom || self == McpTool::EditAtom)
            } else {
                None
            }),
            hints.idempotent == (if self.writes() {
                Some(self == McpTool::IngestUrl || self == McpTool::UpdateAtom)
            } else {
                None
            }),
            hints.open_world == (self == McpTool::IngestUrl),
    {
        match self {
            McpTool::CreateAtom => Annotations {
                read_only: false,
                destructive: Some(false),
                idempotent: Some(false),
                open_world: false,
            },
            McpTool::IngestUrl => Annotations {
                read_only: false,
                destructive: Some(false),
                idempotent: Some(true),
                open_world: true,
            },
            McpTool::UpdateAtom => Annotations {
                read_only: false,
                destructive: Some(true),
                idempotent: Some(true),
                open_world: false,
            },
            McpTool::EditAtom => Annotations {
                read_only: false,
                destructive: Some(true),
                idempotent: Some(false),
                open_world: false,
            },
            _ => Annotations {
                read_only: true,
                destructive: None,
                idempotent: None,
                open_world: false,
            },
        }
    }
}

/// Lists all tools.
pub fn tools() -> (list: Vec<McpTool>)
    ensures
        list@ == all_tools(),
{
    let list: Vec<McpTool> = vec![
        McpTool::SemanticSearch,
        McpTool::ReadAtom,
        McpTool::FindSimilar,
        McpTool::ListTags,
        McpTool::ListAtoms,
        McpTool::ListDatabases,
        McpTool::ListWikis,
        McpTool::GetWiki,
        McpTool::ListReports,
        McpTool::GetReportFindings,
        McpTool::CreateAtom,
        McpTool::IngestUrl,
        McpTool::UpdateAtom,
        McpTool::EditAtom,
        McpTool::Search,
        McpTool::Fetch,
    ];
    assert(list@ =~= all_tools());
    list
}

/// The tool that a client calls.
pub fn find_tool(name: &str) -> (tool: Option<McpTool>)
    ensures
        name@ == "semantic_search"@ ==> tool == Some(McpTool::SemanticSearch),
        name@ == "read_atom"@ ==> tool == Some(McpTool::ReadAtom),
        name@ == "find_similar"@ ==> tool == Some(McpTool::FindSimilar),
        name@ == "list_tags"@ ==> tool == Some(McpTool::ListTags),
        name@ == "list_atoms"@ ==> tool == Some(McpTool::ListAtoms),
        name@ == "list_databases"@ ==> tool == Some(McpTool::ListDatabases),
        name@ == "list_wikis"@ ==> tool == Some(McpTool::ListWikis),
        name@ == "get_wiki"@ ==> tool == Some(McpTool::GetWiki),
        name@ == "list_reports"@ ==> tool == Some(McpTool::ListReports),
        name@ == "get_report_findings"@ ==> tool == Some(McpTool::GetReportFindings),
        name@ == "create_atom"@ ==> tool == Some(McpTool::CreateAtom),
        name@ == "ingest_url"@ ==> tool == Some(McpTool::IngestUrl),
        name@ == "update_atom"@ ==> tool == Some(McpTool::UpdateAtom),
        name@ == "edit_atom"@ ==> tool == Some(McpTool::EditAtom),
        name@ == "search"@ ==> tool == Some(McpTool::Search),
        name@ == "fetch"@ ==> tool == Some(McpTool::Fetch),
        match tool {
            Some(tool) => tool.called() == name@,
            None => forall|tool: McpTool| (#[trigger] tool.called()) != name@,
        },
{
    let list = tools();
    let mut at: usize = 0;
    while at < list.len()
        invariant
            at <= list.len(),
            list@ == all_tools(),
            forall|i: int| 0 <= i < at ==> (#[trigger] list@[i]).called() != name@,
        decreases list.len() - at,
    {
        if text::same_text(list[at].name(), name) {
            let found = list[at];
            proof {
                assert forall|other: McpTool| (#[trigger] other.called()) == name@ implies other
                    == found by {
                    if other != found {
                        lemma_names_differ(other, found);
                    }
                }
                assert(McpTool::SemanticSearch.called() == "semantic_search"@);
                assert(McpTool::ReadAtom.called() == "read_atom"@);
                assert(McpTool::FindSimilar.called() == "find_similar"@);
                assert(McpTool::ListTags.called() == "list_tags"@);
                assert(McpTool::ListAtoms.called() == "list_atoms"@);
                assert(McpTool::ListDatabases.called() == "list_databases"@);
                assert(McpTool::ListWikis.called() == "list_wikis"@);
                assert(McpTool::GetWiki.called() == "get_wiki"@);
                assert(McpTool::ListReports.called() == "list_reports"@);
                assert(McpTool::GetReportFindings.called() == "get_report_findings"@);
                assert(McpTool::CreateAtom.called() == "create_atom"@);
                assert(McpTool::IngestUrl.called() == "ingest_url"@);
                assert(McpTool::UpdateAtom.called() == "update_atom"@);
                assert(McpTool::EditAtom.called() == "edit_atom"@);
                assert(McpTool::Search.called() == "search"@);
                assert(McpTool::Fetch.called() == "fetch"@);
            }
            return Some(found);
        }
        at = at + 1;
    }
    proof {
        assert forall|tool: McpTool| (#[trigger] tool.called()) != name@ by {
            let i = lemma_every_tool_is_listed(tool);
            assert(list@[i] == tool);
        }
        assert(McpTool::SemanticSearch.called() == "semantic_search"@);
        assert(McpTool::ReadAtom.called() == "read_atom"@);
        assert(McpTool::FindSimilar.called() == "find_similar"@);
        assert(McpTool::ListTags.called() == "list_tags"@);
        assert(McpTool::ListAtoms.called() == "list_atoms"@);
        assert(McpTool::ListDatabases.called() == "list_databases"@);
        assert(McpTool::ListWikis.called() == "list_wikis"@);
        assert(McpTool::GetWiki.called() == "get_wiki"@);
        assert(McpTool::ListReports.called() == "list_reports"@);
        assert(McpTool::GetReportFindings.called() == "get_report_findings"@);
        assert(McpTool::CreateAtom.called() == "create_atom"@);
        assert(McpTool::IngestUrl.called() == "ingest_url"@);
        assert(McpTool::UpdateAtom.called() == "update_atom"@);
        assert(McpTool::EditAtom.called() == "edit_atom"@);
        assert(McpTool::Search.called() == "search"@);
        assert(McpTool::Fetch.called() == "fetch"@);
    }
    None
}

// ==================== Laws ====================

/// Every tool is listed.
pub proof fn lemma_every_tool_is_listed(tool: McpTool) -> (at: int)
    ensures
        0 <= at < all_tools().len(),
        all_tools()[at] == tool,
{
    match tool {
        McpTool::SemanticSearch => 0,
        McpTool::ReadAtom => 1,
        McpTool::FindSimilar => 2,
        McpTool::ListTags => 3,
        McpTool::ListAtoms => 4,
        McpTool::ListDatabases => 5,
        McpTool::ListWikis => 6,
        McpTool::GetWiki => 7,
        McpTool::ListReports => 8,
        McpTool::GetReportFindings => 9,
        McpTool::CreateAtom => 10,
        McpTool::IngestUrl => 11,
        McpTool::UpdateAtom => 12,
        McpTool::EditAtom => 13,
        McpTool::Search => 14,
        McpTool::Fetch => 15,
    }
}

/// No two tools go by the same name.
pub proof fn lemma_names_differ(a: McpTool, b: McpTool)
    requires
        a != b,
    ensures
        a.called() != b.called(),
{
    reveal_strlit("semantic_search");
    reveal_strlit("read_atom");
    reveal_strlit("find_similar");
    reveal_strlit("list_tags");
    reveal_strlit("list_atoms");
    reveal_strlit("list_databases");
    reveal_strlit("list_wikis");
    reveal_strlit("get_wiki");
    reveal_strlit("list_reports");
    reveal_strlit("get_report_findings");
    reveal_strlit("create_atom");
    reveal_strlit("ingest_url");
    reveal_strlit("update_atom");
    reveal_strlit("edit_atom");
    reveal_strlit("search");
    reveal_strlit("fetch");
    let (x, y) = (a.called(), b.called());
    if x.len() == y.len() {
        assert(x[0] != y[0] || x[5] != y[5]);
    }
}

/// Clients are told which tools write: those that create, fetch, update or edit
/// an atom, and no others.
pub proof fn lemma_four_tools_write(tool: McpTool)
    ensures
        tool.writes() <==> tool == McpTool::CreateAtom || tool == McpTool::IngestUrl || tool
            == McpTool::UpdateAtom || tool == McpTool::EditAtom,
{
}

} // verus!
