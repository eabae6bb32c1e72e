//! What the model is told of the tools of a chat turn.

use crate::agent_runtime::tools;
use crate::agent_runtime::tools::ToolRegistry;
use crate::chat_tools::changes::CanvasAction;
use crate::chat_tools::reading;
use crate::json;
use crate::json::Json;
use crate::json::JsonTree;
use crate::outside;
use crate::providers::types::ToolDefinition;
use crate::providers::types::ToolDefinitionView;
use vstd::prelude::*;

verus! {

/// A tool of a chat turn.
#[derive(Debug, Clone, Copy, PartialEq, Eq, Structural)]
pub enum ChatTool {
    SearchAtoms,
    GetAtom,
    ListTags,
    GetWiki,
    ListReports,
    GetFinding,
    CreateAtom,
    EditAtom,
    CurrentPageContext,
    CanvasNavigation(CanvasAction),
}

pub const SEARCH_ATOMS_DESCRIPTION: &'static str = "Search for relevant atoms using hybrid keyword and semantic search. Use this to find information related to a specific topic or question. Set since_days when the user is asking about recent notes (e.g., 7 for last week, 30 for last month).";

pub const SEARCH_ATOMS_SCHEMA: &'static str = r#"{
    "type": "object",
    "properties": {
        "query": {
            "type": "string",
            "description": "The search query to find relevant atoms"
        },
        "limit": {
            "type": "integer",
            "description": "Maximum number of results to return (default: 5)",
            "default": 5
        },
        "since_days": {
            "type": "integer",
            "description": "Optional recency filter: only return atoms created within the last N days. Use when the user's question is time-sensitive (e.g., 7 for last week, 30 for last month).",
            "minimum": 1
        }
    },
    "required": ["query"]
}"#;

pub const GET_ATOM_DESCRIPTION: &'static str = "Get the content of a specific atom by its ID. Returns up to `limit` lines starting at `offset` (defaults: offset=0, limit=500). If the atom has more content, the response includes a line-count header indicating how to continue reading via a follow-up call with a higher offset.";

pub const GET_ATOM_PROPERTIES: &'static str = r#"{
    "atom_id": {
        "type": "string",
        "description": "The ID of the atom to retrieve"
    }
}"#;

pub const LIST_TAGS_DESCRIPTION: &'static str = "List the tags that organize this knowledge base, with the number of atoms under each (counts include sub-tags). Use it to see how the user's knowledge is structured, to choose a tag for get_wiki, or to find a tag id to scope your reading. Returns the top of the tree and one level below it; pass parent_id to expand a branch further.";

pub const LIST_TAGS_SCHEMA: &'static str = r#"{
    "type": "object",
    "properties": {
        "parent_id": {
            "type": "string",
            "description": "Tag id (or exact name) to expand. Omit for the top of the tree."
        }
    }
}"#;

pub const GET_WIKI_DESCRIPTION: &'static str = "Read the wiki article for a tag: a synthesized overview of everything stored under that topic. Prefer this over stitching many search results together when the user asks about a topic as a whole. Accepts a tag id or tag name. Returns up to `limit` lines starting at `offset`, with a header telling you how to read the rest.";

pub const GET_WIKI_PROPERTIES: &'static str = r#"{
    "tag": {
        "type": "string",
        "description": "Tag name or tag id whose article to read (see list_tags)"
    }
}"#;

pub const LIST_REPORTS_DESCRIPTION: &'static str = "List the scheduled research reports configured in this knowledge base, each with its most recent finding. Reports run on a schedule and write their conclusions back as findings. Use get_finding to read one in full.";

pub const NO_ARGUMENTS_SCHEMA: &'static str = r#"{
    "type": "object",
    "properties": {},
    "additionalProperties": false
}"#;

pub const GET_FINDING_DESCRIPTION: &'static str = "Read a report finding in full — the write-up a scheduled report produced. Get finding ids from list_reports. Returns up to `limit` lines starting at `offset`, with a header telling you how to read the rest.";

pub const GET_FINDING_PROPERTIES: &'static str = r#"{
    "atom_id": {
        "type": "string",
        "description": "The finding's atom id (from list_reports)"
    }
}"#;

pub const CREATE_ATOM_DESCRIPTION: &'static str = "Create a new atom with markdown content. Only use this when the user explicitly asks you to create, save, draft, or add a new atom/note. Do not call this for ordinary answers. After creating an atom, mention it in your final response using [[atom_id]] so the UI can link to it.";

pub const CREATE_ATOM_SCHEMA: &'static str = r#"{
    "type": "object",
    "properties": {
        "content": {
            "type": "string",
            "description": "Full markdown content for the new atom"
        },
        "source_url": {
            "type": "string",
            "description": "Optional source URL for the atom"
        },
        "published_at": {
            "type": "string",
            "description": "Optional ISO 8601 publication date"
        },
        "tag_ids": {
            "type": "array",
            "description": "Optional existing tag IDs to assign",
            "items": { "type": "string" },
            "default": []
        }
    },
    "required": ["content"]
}"#;

pub const EDIT_ATOM_DESCRIPTION: &'static str = "Apply edits to an existing atom. Only use this when the user explicitly asks you to modify an atom. Supports replace, insert_after, append, and replace_all operations. Prefer targeted edits. Use replace_all only when the user explicitly asks for a full rewrite or provides complete replacement content. replace and insert_after require exact text that appears exactly once in the current atom; call get_atom first if you need context.";

pub const EDIT_ATOM_SCHEMA: &'static str = r#"{
    "type": "object",
    "properties": {
        "atom_id": {
            "type": "string",
            "description": "The ID of the atom to edit"
        },
        "edits": {
            "type": "array",
            "description": "One or more edits applied in order to the atom content. The whole operation fails without saving if any edit is invalid.",
            "items": {
                "type": "object",
                "properties": {
                    "operation": {
                        "type": "string",
                        "enum": ["replace", "insert_after", "append", "replace_all"],
                        "description": "replace swaps exact old_text for new_text; insert_after inserts text after exact anchor_text; append adds text to the end of the atom; replace_all replaces the full atom content."
                    },
                    "old_text": {
                        "type": "string",
                        "description": "Exact text to replace. Required for replace and must occur exactly once."
                    },
                    "new_text": {
                        "type": "string",
                        "description": "Replacement text for replace."
                    },
                    "anchor_text": {
                        "type": "string",
                        "description": "Exact text to insert after. Required for insert_after and must occur exactly once."
                    },
                    "text": {
                        "type": "string",
                        "description": "Text to insert for insert_after or append. Include leading newlines/spaces exactly as desired."
                    },
                    "content": {
                        "type": "string",
                        "description": "Full replacement markdown content. Required for replace_all."
                    }
                },
                "required": ["operation"]
            },
            "minItems": 1
        }
    },
    "required": ["atom_id", "edits"]
}"#;

pub const PAGE_CONTEXT_DESCRIPTION: &'static str = "Get compact context about what the user is currently viewing in Atomic, such as the visible atom, wiki page, selected tag, and a short atom snippet. Use this first when the user says things like \"this atom\", \"the note I'm reading\", \"this page\", \"what I'm looking at\", or otherwise refers to visible UI context.";

pub const ZOOM_DESCRIPTION: &'static str = "Zoom the canvas camera to center on a single cluster of related atoms. The canvas can only show one view at a time — each call replaces the previous view. Use this when the user asks about a topic area visible on their knowledge graph.";

pub const ZOOM_SCHEMA: &'static str = r#"{
    "type": "object",
    "properties": {
        "cluster_label": {
            "type": "string",
            "description": "The label of the cluster to zoom to"
        }
    },
    "required": ["cluster_label"]
}"#;

pub const FOCUS_DESCRIPTION: &'static str = "Zoom to a specific atom on the canvas and show its preview. The canvas can only focus on one atom at a time. Use this after searching to highlight a specific result on the graph.";

pub const FOCUS_SCHEMA: &'static str = r#"{
    "type": "object",
    "properties": {
        "atom_id": {
            "type": "string",
            "description": "The ID of the atom to focus on"
        }
    },
    "required": ["atom_id"]
}"#;

pub const OFFSET_DESCRIPTION: &'static str = "Line number to start reading from (0-indexed). Use the value from a prior response's header to continue reading truncated content.";

pub const LIMIT_DESCRIPTION: &'static str = "Maximum number of lines to return. Defaults to 500; prefer the default unless you know you need more.";

/// What a JSON text holds, null where it holds no JSON.
pub open spec fn tree_in(text: Seq<char>) -> JsonTree {
    match outside::json_value(text) {
        Some(tree) => tree,
        None => JsonTree::Null,
    }
}

fn json_in(text: &str) -> (json: Json)
    ensures
        json@ == tree_in(text@),
{
    match json::parse(text) {
        Some(json) => json,
        None => Json::Null,
    }
}

/// The schema of the line that a window starts at.
pub open spec fn offset_schema() -> JsonTree {
    JsonTree::Object(
        Map::<Seq<char>, JsonTree>::empty().insert("type"@, JsonTree::Text("integer"@)).insert(
            "description"@,
            JsonTree::Text(OFFSET_DESCRIPTION@),
        ).insert("minimum"@, JsonTree::Natural(0)).insert("default"@, JsonTree::Natural(0)),
    )
}

/// The schema of the length of a window.
pub open spec fn limit_schema() -> JsonTree {
    JsonTree::Object(
        Map::<Seq<char>, JsonTree>::empty().insert("type"@, JsonTree::Text("integer"@)).insert(
            "description"@,
            JsonTree::Text(LIMIT_DESCRIPTION@),
        ).insert("minimum"@, JsonTree::Natural(1)).insert(
            "maximum"@,
            JsonTree::Natural(reading::READ_MAX_LIMIT as u64),
        ).insert("default"@, JsonTree::Natural(reading::READ_DEFAULT_LIMIT as u64)),
    )
}

/// The schema of a tool that returns a window of lines: its own properties,
/// where they are an object with `offset` and `limit` among them.
pub open spec fn paged(properties: JsonTree, required: JsonTree) -> JsonTree {
    let merged = match properties {
        JsonTree::Object(fields) => JsonTree::Object(
            fields.insert("offset"@, offset_schema()).insert("limit"@, limit_schema()),
        ),
        other => other,
    };
    JsonTree::Object(
        Map::<Seq<char>, JsonTree>::empty().insert("type"@, JsonTree::Text("object"@)).insert(
            "properties"@,
            merged,
        ).insert("required"@, required),
    )
}

/// The schema of a tool that returns a window of lines, around the properties
/// that are its own.
pub fn paged_schema(properties: Json, required: Json) -> (schema: Json)
    ensures
        schema@ == paged(properties@, required@),
{
    let merged = match properties {
        Json::Object(entries) => {
            let mut entries = entries;
            let mut offset: Vec<(String, Json)> = Vec::new();
            json::put(&mut offset, "type", json::string("integer"));
            json::put(&mut offset, "description", json::string(OFFSET_DESCRIPTION));
            json::put(&mut offset, "minimum", Json::Natural(0));
            json::put(&mut offset, "default", Json::Natural(0));
            let offset = Json::Object(offset);
            assert(offset@ == offset_schema());
            json::put(&mut entries, "offset", offset);
            let mut limit: Vec<(String, Json)> = Vec::new();
            json::put(&mut limit, "type", json::string("integer"));
            json::put(&mut limit, "description", json::string(LIMIT_DESCRIPTION));
            json::put(&mut limit, "minimum", Json::Natural(1));
            json::put(&mut limit, "maximum", Json::Natural(reading::READ_MAX_LIMIT as u64));
            json::put(&mut limit, "default", Json::Natural(reading::READ_DEFAULT_LIMIT as u64));
            let limit = Json::Object(limit);
            assert(limit@ == limit_schema());
            json::put(&mut entries, "limit", limit);
            Json::Object(entries)
        },
        other => other,
    };
    let mut schema: Vec<(String, Json)> = Vec::new();
    json::put(&mut schema, "type", json::string("object"));
    json::put(&mut schema, "properties", merged);
    json::put(&mut schema, "required", required);
    Json::Object(schema)
}

impl ChatTool {
    /// The name by which the model calls the tool.
    pub open spec fn name(self) -> Seq<char> {
        match self {
            ChatTool::SearchAtoms => "search_atoms"@,
            ChatTool::GetAtom => "get_atom"@,
            ChatTool::ListTags => "list_tags"@,
            ChatTool::GetWiki => "get_wiki"@,
            ChatTool::ListReports => "list_reports"@,
            ChatTool::GetFinding => "get_finding"@,
            ChatTool::CreateAtom => "create_atom"@,
            ChatTool::EditAtom => "edit_atom"@,
            ChatTool::CurrentPageContext => "get_current_page_context"@,
            ChatTool::CanvasNavigation(action) => action.name(),
        }
    }

    /// What the model is told that the tool does.
    pub open spec fn description(self) -> Seq<char> {
        match self {
            ChatTool::SearchAtoms => SEARCH_ATOMS_DESCRIPTION@,
            ChatTool::GetAtom => GET_ATOM_DESCRIPTION@,
            ChatTool::ListTags => LIST_TAGS_DESCRIPTION@,
            ChatTool::GetWiki => GET_WIKI_DESCRIPTION@,
            ChatTool::ListReports => LIST_REPORTS_DESCRIPTION@,
            ChatTool::GetFinding => GET_FINDING_DESCRIPTION@,
            ChatTool::CreateAtom => CREATE_ATOM_DESCRIPTION@,
            ChatTool::EditAtom => EDIT_ATOM_DESCRIPTION@,
            ChatTool::CurrentPageContext => PAGE_CONTEXT_DESCRIPTION@,
            ChatTool::CanvasNavigation(CanvasAction::ZoomToCluster) => ZOOM_DESCRIPTION@,
            ChatTool::CanvasNavigation(CanvasAction::FocusAtom) => FOCUS_DESCRIPTION@,
        }
    }

    /// The schema of the tool's arguments.
    pub open spec fn parameters(self) -> JsonTree {
        match self {
            ChatTool::SearchAtoms => tree_in(SEARCH_ATOMS_SCHEMA@),
            ChatTool::GetAtom => paged(tree_in(GET_ATOM_PROPERTIES@), tree_in("[\"atom_id\"]"@)),
            ChatTool::ListTags => tree_in(LIST_TAGS_SCHEMA@),
            ChatTool::GetWiki => paged(tree_in(GET_WIKI_PROPERTIES@), tree_in("[\"tag\"]"@)),
            ChatTool::ListReports => tree_in(NO_ARGUMENTS_SCHEMA@),
            ChatTool::GetFinding => paged(
                tree_in(GET_FINDING_PROPERTIES@),
                tree_in("[\"atom_id\"]"@),
            ),
            ChatTool::CreateAtom => tree_in(CREATE_ATOM_SCHEMA@),
            ChatTool::EditAtom => tree_in(EDIT_ATOM_SCHEMA@),
            ChatTool::CurrentPageContext => tree_in(NO_ARGUMENTS_SCHEMA@),
            ChatTool::CanvasNavigation(CanvasAction::ZoomToCluster) => tree_in(ZOOM_SCHEMA@),
            ChatTool::CanvasNavigation(CanvasAction::FocusAtom) => tree_in(FOCUS_SCHEMA@),
        }
    }

    /// What the model is told of the tool.
    pub open spec fn shown(self) -> ToolDefinitionView {
        ToolDefinitionView {
            name: self.name(),
            description: self.description(),
            parameters: self.parameters(),
        }
    }

    pub fn definition(self) -> (definition: ToolDefinition)
        ensures
            definition@ == self.shown(),
            self is SearchAtoms ==> definition.name@ == "search_atoms"@ && definition.description@
                == SEARCH_ATOMS_DESCRIPTION@ && definition.parameters@ == tree_in(
                SEARCH_ATOMS_SCHEMA@,
            ),
            self is GetAtom ==> definition.name@ == "get_atom"@ && definition.description@
                == GET_ATOM_DESCRIPTION@ && definition.parameters@ == paged(
                tree_in(GET_ATOM_PROPERTIES@),
                tree_in("[\"atom_id\"]"@),
            ),
            self is ListTags ==> definition.name@ == "list_tags"@ && definition.description@
                == LIST_TAGS_DESCRIPTION@ && definition.parameters@ == tree_in(LIST_TAGS_SCHEMA@),
            self is GetWiki ==> definition.name@ == "get_wiki"@ && definition.description@
                == GET_WIKI_DESCRIPTION@ && definition.parameters@ == paged(
                tree_in(GET_WIKI_PROPERTIES@),
                tree_in("[\"tag\"]"@),
            ),
            self is ListReports ==> definition.name@ == "list_reports"@ && definition.description@
                == LIST_REPORTS_DESCRIPTION@ && definition.parameters@ == tree_in(
                NO_ARGUMENTS_SCHEMA@,
            ),
            self is GetFinding ==> definition.name@ == "get_finding"@ && definition.description@
                == GET_FINDING_DESCRIPTION@ && definition.parameters@ == paged(
                tree_in(GET_FINDING_PROPERTIES@),
                tree_in("[\"atom_id\"]"@),
            ),
            self is CreateAtom ==> definition.name@ == "create_atom"@ && definition.description@
                == CREATE_ATOM_DESCRIPTION@ && definition.parameters@ == tree_in(
                CREATE_ATOM_SCHEMA@,
            ),
            self is EditAtom ==> definition.name@ == "edit_atom"@ && definition.description@
                == EDIT_ATOM_DESCRIPTION@ && definition.parameters@ == tree_in(EDIT_ATOM_SCHEMA@),
            self is CurrentPageContext ==> definition.name@ == "get_current_page_context"@
                && definition.description@ == PAGE_CONTEXT_DESCRIPTION@ && definition.parameters@
                == tree_in(NO_ARGUMENTS_SCHEMA@),
            self == ChatTool::CanvasNavigation(CanvasAction::ZoomToCluster) ==> definition.name@
                == "zoom_to_cluster"@ && definition.description@ == ZOOM_DESCRIPTION@
                && definition.parameters@ == tree_in(ZOOM_SCHEMA@),
            self == ChatTool::CanvasNavigation(CanvasAction::FocusAtom) ==> definition.name@
                == "focus_atom"@ && definition.description@ == FOCUS_DESCRIPTION@
                && definition.parameters@ == tree_in(FOCUS_SCHEMA@),
    {
        match self {
            ChatTool::SearchAtoms => ToolDefinition::new(
                "search_atoms",
                SEARCH_ATOMS_DESCRIPTION,
                json_in(SEARCH_ATOMS_SCHEMA),
            ),
            ChatTool::GetAtom => ToolDefinition::new(
                "get_atom",
                GET_ATOM_DESCRIPTION,
                paged_schema(json_in(GET_ATOM_PROPERTIES), json_in("[\"atom_id\"]")),
            ),
            ChatTool::ListTags => ToolDefinition::new(
                "list_tags",
                LIST_TAGS_DESCRIPTION,
                json_in(LIST_TAGS_SCHEMA),
            ),
            ChatTool::GetWiki => ToolDefinition::new(
                "get_wiki",
                GET_WIKI_DESCRIPTION,
                paged_schema(json_in(GET_WIKI_PROPERTIES), json_in("[\"tag\"]")),
            ),
            ChatTool::ListReports => ToolDefinition::new(
                "list_reports",
                LIST_REPORTS_DESCRIPTION,
                json_in(NO_ARGUMENTS_SCHEMA),
            ),
            ChatTool::GetFinding => ToolDefinition::new(
                "get_finding",
                GET_FINDING_DESCRIPTION,
                paged_schema(json_in(GET_FINDING_PROPERTIES), json_in("[\"atom_id\"]")),
            ),
            ChatTool::CreateAtom => ToolDefinition::new(
                "create_atom",
                CREATE_ATOM_DESCRIPTION,
                json_in(CREATE_ATOM_SCHEMA),
            ),
            ChatTool::EditAtom => ToolDefinition::new(
                "edit_atom",
                EDIT_ATOM_DESCRIPTION,
                json_in(EDIT_ATOM_SCHEMA),
            ),
            ChatTool::CurrentPageContext => ToolDefinition::new(
                "get_current_page_context",
                PAGE_CONTEXT_DESCRIPTION,
                json_in(NO_ARGUMENTS_SCHEMA),
            ),
            ChatTool::CanvasNavigation(CanvasAction::ZoomToCluster) => ToolDefinition::new(
                "zoom_to_cluster",
                ZOOM_DESCRIPTION,
                json_in(ZOOM_SCHEMA),
            ),
            ChatTool::CanvasNavigation(CanvasAction::FocusAtom) => ToolDefinition::new(
                "focus_atom",
                FOCUS_DESCRIPTION,
                json_in(FOCUS_SCHEMA),
            ),
        }
    }
}

/// No two tools have the same name.
pub proof fn lemma_tool_names_differ(a: ChatTool, b: ChatTool)
    requires
        a.name() == b.name(),
    ensures
        a == b,
{
    reveal_strlit("search_atoms");
    reveal_strlit("get_atom");
    reveal_strlit("list_tags");
    reveal_strlit("get_wiki");
    reveal_strlit("list_reports");
    reveal_strlit("get_finding");
    reveal_strlit("create_atom");
    reveal_strlit("edit_atom");
    reveal_strlit("get_current_page_context");
    reveal_strlit("zoom_to_cluster");
    reveal_strlit("focus_atom");
    assert("search_atoms"@.len() == 12 && "list_reports"@.len() == 12);
    assert("get_atom"@.len() == 8 && "get_wiki"@.len() == 8);
    assert("list_tags"@.len() == 9 && "edit_atom"@.len() == 9);
    assert("get_finding"@.len() == 11 && "create_atom"@.len() == 11);
    assert("get_current_page_context"@.len() == 24);
    assert("zoom_to_cluster"@.len() == 15);
    assert("focus_atom"@.len() == 10);
    assert("search_atoms"@[0] != "list_reports"@[0]);
    assert("get_atom"@[4] != "get_wiki"@[4]);
    assert("list_tags"@[0] != "edit_atom"@[0]);
    assert("get_finding"@[0] != "create_atom"@[0]);
}

/// The tools of a chat turn, in the order in which the model sees them. What
/// the frontend did not send the context for is not among them.
pub open spec fn chat_tools(has_page: bool, has_canvas: bool) -> Seq<ChatTool> {
    let core = seq![
        ChatTool::SearchAtoms,
        ChatTool::GetAtom,
        ChatTool::ListTags,
        ChatTool::GetWiki,
        ChatTool::ListReports,
        ChatTool::GetFinding,
        ChatTool::CreateAtom,
        ChatTool::EditAtom,
    ];
    let with_page = if has_page {
        core.push(ChatTool::CurrentPageContext)
    } else {
        core
    };
    if has_canvas {
        with_page.push(ChatTool::CanvasNavigation(CanvasAction::ZoomToCluster)).push(
            ChatTool::CanvasNavigation(CanvasAction::FocusAtom),
        )
    } else {
        with_page
    }
}

/// Registers the tools of a chat turn.
pub fn into_registry(has_page: bool, has_canvas: bool) -> (registry: ToolRegistry<ChatTool>)
    ensures
        registry.well_formed(),
        registry.handles() == chat_tools(has_page, has_canvas),
        registry.tools() == Seq::new(
            chat_tools(has_page, has_canvas).len(),
            |i: int| chat_tools(has_page, has_canvas)[i].shown(),
        ),
{
    let mut list: Vec<ChatTool> = Vec::new();
    list.push(ChatTool::SearchAtoms);
    list.push(ChatTool::GetAtom);
    list.push(ChatTool::ListTags);
    list.push(ChatTool::GetWiki);
    list.push(ChatTool::ListReports);
    list.push(ChatTool::GetFinding);
    list.push(ChatTool::CreateAtom);
    list.push(ChatTool::EditAtom);
    if has_page {
        list.push(ChatTool::CurrentPageContext);
    }
    if has_canvas {
        list.push(ChatTool::CanvasNavigation(CanvasAction::ZoomToCluster));
        list.push(ChatTool::CanvasNavigation(CanvasAction::FocusAtom));
    }
    assert(list@ =~= chat_tools(has_page, has_canvas));
    assert(forall|i: int, j: int| 0 <= i < j < list@.len() ==> list@[i] != list@[j]);
    let mut registry: ToolRegistry<ChatTool> = ToolRegistry::new();
    let mut at: usize = 0;
    while at < list.len()
        invariant
            at <= list.len(),
            forall|i: int, j: int| 0 <= i < j < list@.len() ==> list@[i] != list@[j],
            registry.well_formed(),
            registry.handles() == list@.take(at as int),
            registry.tools() == Seq::new(at as nat, |i: int| list@[i].shown()),
        decreases list.len() - at,
    {
        let tool = list[at];
        proof {
            let before = registry.tools();
            tools::lemma_place_bounds(before, tool.name());
            let place = tools::place_of(before, tool.name());
            if place < before.len() {
                assert(before[place] == list@[place].shown());
                lemma_tool_names_differ(list@[place], tool);
            }
        }
        registry.register(tool, tool.definition());
        proof {
            assert(registry.handles() =~= list@.take(at + 1));
            assert(registry.tools() =~= Seq::new((at + 1) as nat, |i: int| list@[i].shown()));
        }
        at = at + 1;
    }
    assert(list@.take(at as int) =~= list@);
    assert(registry.tools() =~= Seq::new(
        chat_tools(has_page, has_canvas).len(),
        |i: int| chat_tools(has_page, has_canvas)[i].shown(),
    ));
    registry
}

// ==================== Laws ====================

proof fn lemma_keys_differ()
    ensures
        "type"@ != "description"@,
        "type"@ != "minimum"@,
        "type"@ != "maximum"@,
        "type"@ != "default"@,
        "description"@ != "minimum"@,
        "description"@ != "maximum"@,
        "description"@ != "default"@,
        "minimum"@ != "maximum"@,
        "minimum"@ != "default"@,
        "maximum"@ != "default"@,
        "offset"@ != "limit"@,
        "type"@ != "properties"@,
        "type"@ != "required"@,
        "properties"@ != "required"@,
{
    reveal_strlit("type");
    reveal_strlit("description");
    reveal_strlit("minimum");
    reveal_strlit("maximum");
    reveal_strlit("default");
    reveal_strlit("offset");
    reveal_strlit("limit");
    reveal_strlit("properties");
    reveal_strlit("required");
    assert("type"@.len() == 4 && "description"@.len() == 11 && "minimum"@.len() == 7
        && "maximum"@.len() == 7 && "default"@.len() == 7);
    assert("minimum"@[1] != "maximum"@[1]);
    assert("minimum"@[0] != "default"@[0]);
    assert("maximum"@[0] != "default"@[0]);
    assert("offset"@.len() == 6 && "limit"@.len() == 5);
    assert("properties"@.len() == 10 && "required"@.len() == 8);
}

/// The schema of a tool that returns a window keeps the properties that are the
/// tool's own and what it requires, and adds where the window starts and how
/// long it is. A window starts at the first line where nothing is said, and is
/// as long as windows are by default; it has at least one line and no more than
/// a window may have.
pub proof fn lemma_a_paged_schema_keeps_its_own(
    own: Map<Seq<char>, JsonTree>,
    required: JsonTree,
    key: Seq<char>,
)
    ensures
        ({
            let schema = paged(JsonTree::Object(own), required);
            &&& schema.text_field("type"@) == Some("object"@)
            &&& schema.field("required"@) == Some(required)
            &&& schema.field("properties"@) matches Some(properties) && {
                &&& own.dom().contains(key) && key != "offset"@ && key != "limit"@
                    ==> properties.field(key) == Some(own[key])
                &&& properties.field("offset"@) matches Some(offset) && offset.text_field("type"@)
                    == Some("integer"@) && offset.field("minimum"@) == Some(JsonTree::Natural(0))
                    && offset.field("default"@) == Some(JsonTree::Natural(0))
                    && offset.text_field("description"@) == Some(OFFSET_DESCRIPTION@)
                    && offset.field("maximum"@) is None
                &&& properties.field("limit"@) matches Some(limit) && limit.text_field("type"@)
                    == Some("integer"@) && limit.field("minimum"@) == Some(JsonTree::Natural(1))
                    && limit.field("maximum"@) == Some(JsonTree::Natural(2000))
                    && limit.field("default"@) == Some(JsonTree::Natural(500)) && limit.text_field("description"@) == Some(LIMIT_DESCRIPTION@)
            }
        }),
{
    lemma_keys_differ();
}

/// Every turn has the tools that need no context of the frontend. It has the
/// page's tool where there is a page, and those of the canvas where there is a
/// canvas, behind all others; and none of them twice.
pub proof fn lemma_tools_follow_the_context(has_page: bool, has_canvas: bool, tool: ChatTool)
    ensures
        chat_tools(has_page, has_canvas).contains(tool) <==> (match tool {
            ChatTool::CurrentPageContext => has_page,
            ChatTool::CanvasNavigation(_) => has_canvas,
            _ => true,
        }),
        chat_tools(has_page, has_canvas).no_duplicates(),
        chat_tools(has_page, has_canvas)[0] == ChatTool::SearchAtoms,
        chat_tools(has_page, has_canvas).take(8) == chat_tools(false, false),
        has_page ==> chat_tools(has_page, has_canvas)[8] == ChatTool::CurrentPageContext,
        has_canvas ==> chat_tools(has_page, has_canvas).last() == ChatTool::CanvasNavigation(
            CanvasAction::FocusAtom,
        ),
{
    let all = chat_tools(has_page, has_canvas);
    let core = chat_tools(false, false);
    assert(all.take(8) =~= core);
    assert(all[0] is SearchAtoms && all[1] is GetAtom && all[2] is ListTags && all[3] is GetWiki
        && all[4] is ListReports && all[5] is GetFinding && all[6] is CreateAtom
        && all[7] is EditAtom);
    let page: int = if has_page {
        1
    } else {
        0
    };
    assert(all.len() == 8 + page + (if has_canvas {
        2int
    } else {
        0
    }));
    if has_page {
        assert(all[8] is CurrentPageContext);
    }
    if has_canvas {
        assert(all[8 + page] == ChatTool::CanvasNavigation(CanvasAction::ZoomToCluster));
        assert(all[9 + page] == ChatTool::CanvasNavigation(CanvasAction::FocusAtom));
    }
    match tool {
        ChatTool::CanvasNavigation(CanvasAction::ZoomToCluster) => {},
        ChatTool::CanvasNavigation(CanvasAction::FocusAtom) => {},
        _ => {},
    }
}

/// A tool is shown to the model under its name, with its description and the
/// schema of its arguments.
pub proof fn lemma_a_tool_is_shown_as_itself(tool: ChatTool)
    ensures
        tool.shown().name == (match tool {
            ChatTool::SearchAtoms => "search_atoms"@,
            ChatTool::GetAtom => "get_atom"@,
            ChatTool::ListTags => "list_tags"@,
            ChatTool::GetWiki => "get_wiki"@,
            ChatTool::ListReports => "list_reports"@,
            ChatTool::GetFinding => "get_finding"@,
            ChatTool::CreateAtom => "create_atom"@,
            ChatTool::EditAtom => "edit_atom"@,
            ChatTool::CurrentPageContext => "get_current_page_context"@,
            ChatTool::CanvasNavigation(CanvasAction::ZoomToCluster) => "zoom_to_cluster"@,
            ChatTool::CanvasNavigation(CanvasAction::FocusAtom) => "focus_atom"@,
        }),
        tool.shown().description == tool.description(),
        tool.shown().parameters == tool.parameters(),
{
}


/// A schema is what its text spells out.
pub proof fn lemma_a_schema_is_what_its_text_holds(text: Seq<char>)
    ensures
        outside::json_value(text) matches Some(tree) ==> tree_in(text) == tree,
        outside::json_value(text) is None ==> tree_in(text) == JsonTree::Null,
{
}


} // verus!
