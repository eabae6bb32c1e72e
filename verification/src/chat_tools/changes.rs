//! The tools that write to the knowledge base, the one that looks at what the
//! user is looking at, and those that move the canvas.

use crate::agent_runtime::citations;
use crate::agent_runtime::citations::CitableView;
use crate::agent_runtime::citations::CitationLedger;
use crate::agent_runtime::citations::CitationSource;
use crate::agent_runtime::tools::ToolResult;
use crate::agent_runtime::tools::ToolResultView;
use crate::chat_tools::lookup;
use crate::chat_tools::lookup::StoredAtom;
use crate::chat_tools::reading;
use crate::chat_tools::scope::Tag;
use crate::json;
use crate::json::Json;
use crate::json::JsonTree;
use crate::text;
use vstd::prelude::*;

verus! {

// ==================== create_atom / edit_atom ====================

/// The text of a field of the arguments, where it is one that is not empty.
pub fn optional_string_arg(args: &Json, key: &str) -> (value: Option<String>)
    ensures
        text::optional(value) == lookup::not_empty(args@.text_field(key@)),
{
    match args.get_str(key) {
        Some(value) => if value.is_empty() {
            None
        } else {
            Some(value.to_owned())
        },
        None => None,
    }
}

/// The texts of a list that are not empty, in order.
pub open spec fn full_texts(items: Seq<JsonTree>) -> Seq<Seq<char>>
    decreases items.len(),
{
    if items.len() == 0 {
        Seq::empty()
    } else {
        let before = full_texts(items.drop_last());
        match lookup::not_empty(items.last().text()) {
            Some(text) => before.push(text),
            None => before,
        }
    }
}

/// The tags that arguments name.
pub open spec fn tag_ids_in(args: JsonTree) -> Seq<Seq<char>> {
    match args.field("tag_ids"@) {
        Some(value) => match value.items() {
            Some(items) => full_texts(items),
            None => Seq::empty(),
        },
        None => Seq::empty(),
    }
}

pub fn tag_ids_arg(args: &Json) -> (ids: Vec<String>)
    ensures
        text::texts(ids@) == tag_ids_in(args@),
{
    let mut ids: Vec<String> = Vec::new();
    assert(text::texts(ids@) =~= Seq::empty());
    let items = match args.get("tag_ids") {
        Some(value) => match value.as_array() {
            Some(items) => items,
            None => {
                return ids;
            },
        },
        None => {
            return ids;
        },
    };
    let ghost all = json::trees(items@);
    let mut at: usize = 0;
    proof {
        json::lemma_trees(items@);
        assert(all.take(0) =~= Seq::empty());
    }
    while at < items.len()
        invariant
            at <= items.len(),
            all == json::trees(items@),
            all.len() == items@.len(),
            forall|i: int| 0 <= i < all.len() ==> #[trigger] all[i] == json::tree_of(items@[i]),
            text::texts(ids@) == full_texts(all.take(at as int)),
        decreases items.len() - at,
    {
        proof {
            assert(all.take(at + 1).drop_last() =~= all.take(at as int));
            assert(all.take(at + 1).last() == all[at as int]);
        }
        let ghost before = ids@;
        if let Some(id) = items[at].as_str() {
            if !id.is_empty() {
                ids.push(id.to_owned());
                assert(text::texts(ids@) =~= text::texts(before).push(id@));
            }
        }
        at = at + 1;
    }
    assert(all.take(at as int) =~= all);
    ids
}

/// An atom that is to be created.
#[derive(Debug, PartialEq)]
pub struct CreateAtomRequest {
    pub content: String,
    pub source_url: Option<String>,
    pub published_at: Option<String>,
    pub tag_ids: Vec<String>,
    pub skip_if_source_exists: bool,
}

/// Decides what atom arguments ask to create. An empty atom is refused.
pub fn create_request(args: &Json) -> (request: Result<CreateAtomRequest, ToolResult>)
    ensures
        match request {
            Ok(request) => {
                &&& !text::blank(lookup::text_arg(args@, "content"@))
                &&& request.content@ == lookup::text_arg(args@, "content"@)
                &&& text::optional(request.source_url) == lookup::not_empty(
                    args@.text_field("source_url"@),
                )
                &&& text::optional(request.published_at) == lookup::not_empty(
                    args@.text_field("published_at"@),
                )
                &&& text::texts(request.tag_ids@) == tag_ids_in(args@)
                &&& !request.skip_if_source_exists
            },
            Err(result) => text::blank(lookup::text_arg(args@, "content"@)) && result@
                == ToolResultView::failure("Cannot create an empty atom"@),
        },
{
    let content = lookup::get_text_arg(args, "content");
    if text::is_blank(content.as_str()) {
        return Err(ToolResult::failed("Cannot create an empty atom"));
    }
    Ok(
        CreateAtomRequest {
            content,
            source_url: optional_string_arg(args, "source_url"),
            published_at: optional_string_arg(args, "published_at"),
            tag_ids: tag_ids_arg(args),
            skip_if_source_exists: false,
        },
    )
}

/// The atom that an edit is for, or what the model is told where there is
/// none.
pub fn edited_atom(existing: Result<Option<StoredAtom>, String>) -> (atom: Result<
    StoredAtom,
    ToolResult,
>)
    ensures
        match existing {
            Ok(Some(found)) => atom == Ok::<StoredAtom, ToolResult>(found),
            Ok(None) => atom matches Err(result) && result@ == ToolResultView::found(
                "Atom not found"@,
                0,
            ),
            Err(error) => atom matches Err(result) && result@ == ToolResultView::failure(error@),
        },
{
    match existing {
        Ok(Some(found)) => Ok(found),
        Ok(None) => Err(ToolResult::ok(String::from_str("Atom not found"), 0)),
        Err(error) => Err(ToolResult::failed(error.as_str())),
    }
}

/// The edits that arguments hold, before they are read as edit operations.
pub fn edits_arg(args: &Json) -> (edits: Result<Json, ToolResult>)
    ensures
        match edits {
            Ok(edits) => args@.field("edits"@) == Some(edits@),
            Err(result) => args@.field("edits"@) is None && result@ == ToolResultView::failure(
                "edits must be an array"@,
            ),
        },
{
    match args.get("edits") {
        Some(edits) => Ok(edits.clone()),
        None => Err(ToolResult::failed("edits must be an array")),
    }
}

/// What the model is told where its edits are no edit operations.
pub fn invalid_edits(reason: &str) -> (result: ToolResult)
    ensures
        result@ == ToolResultView::failure("edits must be valid edit operations: "@ + reason@),
{
    let error = String::from_str("edits must be valid edit operations: ").concat(reason);
    ToolResult::failed(error.as_str())
}

/// An atom that is to be changed. `tag_ids` of `None` leaves its tags alone.
#[derive(Debug, PartialEq)]
pub struct UpdateAtomRequest {
    pub content: String,
    pub source_url: Option<String>,
    pub published_at: Option<String>,
    pub tag_ids: Option<Vec<String>>,
}

/// An update that is saved only while the atom is as it was when it was read.
#[derive(Debug, PartialEq)]
pub struct GuardedUpdate {
    pub request: UpdateAtomRequest,
    /// When the atom must have been updated last.
    pub expected_updated_at: String,
}

/// Whether an update saves `content` for an atom, leaves the rest of it alone,
/// and counts on the version that was read.
pub open spec fn saves_edit(update: GuardedUpdate, existing: StoredAtom, content: Seq<char>) -> bool {
    &&& update.request.content@ == content
    &&& text::optional(update.request.source_url) == text::optional(existing.source_url)
    &&& text::optional(update.request.published_at) == text::optional(existing.published_at)
    &&& update.request.tag_ids is None
    &&& update.expected_updated_at@ == existing.updated_at@
}

/// Decides whether the content that edits came to is saved. It is not where
/// the edits failed, changed nothing, or left nothing; the reason is told.
/// Everything else about the atom stays, and it must not have changed since it
/// was read.
pub fn plan_edit(existing: &StoredAtom, edited: Result<String, String>) -> (update: Result<
    GuardedUpdate,
    String,
>)
    ensures
        match edited {
            Err(error) => update matches Err(reason) && reason@ == error@,
            Ok(content) => if content@ == existing.content@ {
                update matches Err(reason) && reason@ == "Edits did not change the atom content"@
            } else if text::blank(content@) {
                update matches Err(reason) && reason@ == "Cannot update an atom to empty content"@
            } else {
                &&& update matches Ok(update)
                &&& saves_edit(update, *existing, content@)
                &&& update.request.content@ == content@
                &&& text::optional(update.request.source_url) == text::optional(
                    existing.source_url,
                )
                &&& text::optional(update.request.published_at) == text::optional(
                    existing.published_at,
                )
                &&& update.request.tag_ids is None
                &&& update.expected_updated_at@ == existing.updated_at@
            },
        },
{
    let content = match edited {
        Ok(content) => content,
        Err(error) => {
            return Err(error);
        },
    };
    if text::same_text(content.as_str(), existing.content.as_str()) {
        return Err(String::from_str("Edits did not change the atom content"));
    }
    if text::is_blank(content.as_str()) {
        return Err(String::from_str("Cannot update an atom to empty content"));
    }
    Ok(
        GuardedUpdate {
            request: UpdateAtomRequest {
                content,
                source_url: text::copy_optional(&existing.source_url),
                published_at: text::copy_optional(&existing.published_at),
                tag_ids: None,
            },
            expected_updated_at: existing.updated_at.clone(),
        },
    )
}

/// Decides whether the content that edits came to is saved.
pub fn edit_request(existing: &StoredAtom, edited: Result<String, String>) -> (update: Result<
    GuardedUpdate,
    ToolResult,
>)
    ensures
        match edited {
            Err(error) => update matches Err(result) && result@ == ToolResultView::failure(error@),
            Ok(content) => if content@ == existing.content@ {
                update matches Err(result) && result@ == ToolResultView::failure(
                    "Edits did not change the atom content"@,
                )
            } else if text::blank(content@) {
                update matches Err(result) && result@ == ToolResultView::failure(
                    "Cannot update an atom to empty content"@,
                )
            } else {
                &&& update matches Ok(update)
                &&& saves_edit(update, *existing, content@)
                &&& update.request.content@ == content@
                &&& text::optional(update.request.source_url) == text::optional(
                    existing.source_url,
                )
                &&& text::optional(update.request.published_at) == text::optional(
                    existing.published_at,
                )
                &&& update.request.tag_ids is None
                &&& update.expected_updated_at@ == existing.updated_at@
            },
        },
{
    match plan_edit(existing, edited) {
        Ok(update) => Ok(update),
        Err(reason) => Err(ToolResult::failed(reason.as_str())),
    }
}

/// What is said of an atom that was created or changed.
pub open spec fn change_note(
    id: Seq<char>,
    title: Seq<char>,
    snippet: Seq<char>,
    number: Option<i32>,
) -> JsonTree {
    let fields = Map::<Seq<char>, JsonTree>::empty().insert(
        "atom_id"@,
        JsonTree::Text(id),
    ).insert("title"@, JsonTree::Text(title)).insert("snippet"@, JsonTree::Text(snippet)).insert(
        "reference"@,
        JsonTree::Text("[["@ + id + "]]"@),
    );
    JsonTree::Object(
        match number {
            Some(number) => fields.insert("citation_index"@, json::integer(number as int)),
            None => fields,
        },
    )
}

/// Makes an atom that was created or changed citable and describes it to the
/// model.
pub fn report_change(atom: &StoredAtom, ledger: &mut CitationLedger) -> (result: ToolResult)
    requires
        old(ledger).well_formed(),
        old(ledger).has_room(),
    ensures
        final(ledger).well_formed(),
        final(ledger).admission() == old(ledger).admission(),
        ({
            let (after, number) = citations::registered(
                old(ledger)@,
                lookup::is_open(*old(ledger)),
                CitationSource::Atom,
                atom.id@,
                None,
                reading::excerpt_of(atom.snippet@),
            );
            &&& final(ledger)@ == after
            &&& result@ == ToolResultView::found(
                json::pretty_text_of(change_note(atom.id@, atom.title@, atom.snippet@, number)),
                1,
            )
        }),
{
    let excerpt = reading::excerpt(atom.snippet.as_str());
    let number = ledger.register(CitationSource::Atom, atom.id.as_str(), None, excerpt.as_str());
    let mut reference = String::from_str("[[");
    reference.append(atom.id.as_str());
    reference.append("]]");
    let mut entries: Vec<(String, Json)> = Vec::new();
    json::put(&mut entries, "atom_id", json::string(atom.id.as_str()));
    json::put(&mut entries, "title", json::string(atom.title.as_str()));
    json::put(&mut entries, "snippet", json::string(atom.snippet.as_str()));
    json::put(&mut entries, "reference", json::string(reference.as_str()));
    if let Some(number) = number {
        json::put(&mut entries, "citation_index", json::integer_json(number));
    }
    let payload = Json::Object(entries);
    assert(payload@ == change_note(atom.id@, atom.title@, atom.snippet@, number));
    ToolResult::ok(json::print_pretty(&payload), 1)
}

/// A request to process an atom: to embed it and to tag it.
#[derive(Debug, PartialEq)]
pub struct AtomPipelineJobRequest {
    pub atom_id: String,
    pub embed_requested: bool,
    pub tag_requested: bool,
    /// Before when the job must not run.
    pub not_before: Option<String>,
    /// What the job was asked for by.
    pub reason: String,
    /// Whether it takes the place of a job for the same atom.
    pub replace_existing: bool,
}

/// The job for an atom that a tool has written: it runs in full, as soon as
/// it can, and leaves the jobs that wait already.
pub fn pipeline_job(atom_id: &str, reason: &str) -> (job: AtomPipelineJobRequest)
    ensures
        job.atom_id@ == atom_id@,
        job.embed_requested,
        job.tag_requested,
        job.not_before is None,
        job.reason@ == reason@,
        !job.replace_existing,
{
    AtomPipelineJobRequest {
        atom_id: atom_id.to_owned(),
        embed_requested: true,
        tag_requested: true,
        not_before: None,
        reason: reason.to_owned(),
        replace_existing: false,
    }
}

// ==================== get_current_page_context ====================

/// What the user is looking at, as the frontend says.
#[derive(Debug, PartialEq)]
pub struct PageContext {
    pub view: Option<String>,
    pub atom_id: Option<String>,
    pub atom_title: Option<String>,
    pub atom_snippet: Option<String>,
    pub wiki_tag_id: Option<String>,
    pub wiki_tag_name: Option<String>,
    pub selected_tag_id: Option<String>,
}

/// A tag as JSON.
pub open spec fn tag_json(tag: Tag) -> JsonTree {
    JsonTree::Object(
        Map::<Seq<char>, JsonTree>::empty().insert("id"@, JsonTree::Text(tag.id@)).insert(
            "name"@,
            JsonTree::Text(tag.name@),
        ),
    )
}

/// The fields that are shown of the atom that is looked at: what is stored of
/// it, or, where nothing is, what the frontend said of it.
pub open spec fn atom_fields(
    page: PageContext,
    id: Seq<char>,
    stored: Option<StoredAtom>,
) -> Map<Seq<char>, JsonTree> {
    match stored {
        Some(atom) => Map::<Seq<char>, JsonTree>::empty().insert(
            "id"@,
            JsonTree::Text(atom.id@),
        ).insert("title"@, JsonTree::Text(atom.title@)).insert(
            "snippet"@,
            JsonTree::Text(atom.snippet@),
        ).insert("source_url"@, json::text_or_null(text::optional(atom.source_url))).insert(
            "tags"@,
            JsonTree::List(Seq::new(atom.tags@.len(), |i: int| tag_json(atom.tags@[i]))),
        ),
        None => Map::<Seq<char>, JsonTree>::empty().insert("id"@, JsonTree::Text(id)).insert(
            "title"@,
            json::text_or_null(text::optional(page.atom_title)),
        ).insert("snippet"@, json::text_or_null(text::optional(page.atom_snippet))).insert(
            "not_found"@,
            JsonTree::Bool(true),
        ),
    }
}

/// The page as JSON, around the atom that is looked at.
pub open spec fn page_json(page: PageContext, atom: JsonTree) -> JsonTree {
    let wiki = JsonTree::Object(
        Map::<Seq<char>, JsonTree>::empty().insert(
            "tag_id"@,
            json::text_or_null(text::optional(page.wiki_tag_id)),
        ).insert("tag_name"@, json::text_or_null(text::optional(page.wiki_tag_name))),
    );
    JsonTree::Object(
        Map::<Seq<char>, JsonTree>::empty().insert(
            "view"@,
            json::text_or_null(text::optional(page.view)),
        ).insert("visible_atom"@, atom).insert("wiki"@, wiki).insert(
            "selected_tag_id"@,
            json::text_or_null(text::optional(page.selected_tag_id)),
        ),
    )
}

/// What looking at the page makes of a ledger, and what the model is told.
/// What the user looks at reaches the model because the user shared it. A
/// citation is another claim: only an atom that is stored, in scope and not
/// blank of a snippet becomes citable.
pub open spec fn page_read(
    page: PageContext,
    stored: Result<Option<StoredAtom>, String>,
    admitted: Result<bool, String>,
    items: Seq<CitableView>,
    mints: bool,
) -> (Seq<CitableView>, ToolResultView) {
    match lookup::not_empty(text::optional(page.atom_id)) {
        None => (
            items,
            ToolResultView::found(json::pretty_text_of(page_json(page, JsonTree::Null)), 1),
        ),
        Some(id) => match stored {
            Err(error) => (items, ToolResultView::failure(error@)),
            Ok(stored) => {
                let fields = atom_fields(page, id, stored);
                let plain = (
                    items,
                    ToolResultView::found(
                        json::pretty_text_of(page_json(page, JsonTree::Object(fields))),
                        1,
                    ),
                );
                match stored {
                    None => plain,
                    Some(atom) => match admitted {
                        Err(error) => (items, ToolResultView::failure(error@)),
                        Ok(false) => plain,
                        Ok(true) => if atom.snippet@.len() == 0 {
                            plain
                        } else {
                            let (after, number) = citations::registered(
                                items,
                                mints,
                                CitationSource::Atom,
                                id,
                                None,
                                reading::excerpt_of(atom.snippet@),
                            );
                            let cited = match number {
                                Some(number) => fields.insert(
                                    "citation_index"@,
                                    json::integer(number as int),
                                ),
                                None => fields,
                            };
                            (
                                after,
                                ToolResultView::found(
                                    json::pretty_text_of(
                                        page_json(page, JsonTree::Object(cited)),
                                    ),
                                    1,
                                ),
                            )
                        },
                    },
                }
            },
        },
    }
}

fn tags_json(tags: &Vec<Tag>) -> (json: Json)
    ensures
        json@ == JsonTree::List(Seq::new(tags@.len(), |i: int| tag_json(tags@[i]))),
{
    let mut items: Vec<Json> = Vec::new();
    let mut at: usize = 0;
    while at < tags.len()
        invariant
            at <= tags.len(),
            items@.len() == at,
            forall|i: int| 0 <= i < at ==> json::tree_of(#[trigger] items@[i]) == tag_json(tags@[i]),
        decreases tags.len() - at,
    {
        let mut entries: Vec<(String, Json)> = Vec::new();
        json::put(&mut entries, "id", json::string(tags[at].id.as_str()));
        json::put(&mut entries, "name", json::string(tags[at].name.as_str()));
        let item = Json::Object(entries);
        assert(item@ == tag_json(tags@[at as int]));
        items.push(item);
        at = at + 1;
    }
    proof {
        json::lemma_trees(items@);
        assert(json::trees(items@) =~= Seq::new(tags@.len(), |i: int| tag_json(tags@[i])));
    }
    Json::List(items)
}

fn page_text(page: &PageContext, atom: Json) -> (text: String)
    ensures
        text@ == json::pretty_text_of(page_json(*page, atom@)),
{
    let mut wiki: Vec<(String, Json)> = Vec::new();
    json::put(&mut wiki, "tag_id", json::string_or_null(&page.wiki_tag_id));
    json::put(&mut wiki, "tag_name", json::string_or_null(&page.wiki_tag_name));
    let mut entries: Vec<(String, Json)> = Vec::new();
    json::put(&mut entries, "view", json::string_or_null(&page.view));
    json::put(&mut entries, "visible_atom", atom);
    json::put(&mut entries, "wiki", Json::Object(wiki));
    json::put(&mut entries, "selected_tag_id", json::string_or_null(&page.selected_tag_id));
    let context = Json::Object(entries);
    assert(context@ == page_json(*page, atom@));
    json::print_pretty(&context)
}

/// Tells the model what the user is looking at. `stored` is what is stored of
/// the atom that the page names, where it names one, and `admitted` what the
/// scope says of it, where it is stored.
pub fn current_page_context(
    page: &PageContext,
    stored: Result<Option<StoredAtom>, String>,
    admitted: Result<bool, String>,
    ledger: &mut CitationLedger,
) -> (result: ToolResult)
    requires
        old(ledger).well_formed(),
        old(ledger).has_room(),
    ensures
        final(ledger).well_formed(),
        final(ledger).admission() == old(ledger).admission(),
        (final(ledger)@, result@) == page_read(
            *page,
            stored,
            admitted,
            old(ledger)@,
            lookup::is_open(*old(ledger)),
        ),
{
    let id = match &page.atom_id {
        Some(id) => if id.as_str().is_empty() {
            return ToolResult::ok(page_text(page, Json::Null), 1);
        } else {
            id.as_str()
        },
        None => {
            return ToolResult::ok(page_text(page, Json::Null), 1);
        },
    };
    let stored = match stored {
        Ok(stored) => stored,
        Err(error) => {
            return ToolResult::failed(error.as_str());
        },
    };
    let mut entries: Vec<(String, Json)> = Vec::new();
    let atom = match stored {
        None => {
            json::put(&mut entries, "id", json::string(id));
            json::put(&mut entries, "title", json::string_or_null(&page.atom_title));
            json::put(&mut entries, "snippet", json::string_or_null(&page.atom_snippet));
            json::put(&mut entries, "not_found", Json::Bool(true));
            assert(json::fields(entries@) == atom_fields(*page, id@, None));
            return ToolResult::ok(page_text(page, Json::Object(entries)), 1);
        },
        Some(atom) => atom,
    };
    json::put(&mut entries, "id", json::string(atom.id.as_str()));
    json::put(&mut entries, "title", json::string(atom.title.as_str()));
    json::put(&mut entries, "snippet", json::string(atom.snippet.as_str()));
    json::put(&mut entries, "source_url", json::string_or_null(&atom.source_url));
    json::put(&mut entries, "tags", tags_json(&atom.tags));
    assert(json::fields(entries@) == atom_fields(*page, id@, Some(atom)));
    let citable = match admitted {
        Ok(admitted) => admitted,
        Err(error) => {
            return ToolResult::failed(error.as_str());
        },
    };
    if citable && !atom.snippet.as_str().is_empty() {
        let excerpt = reading::excerpt(atom.snippet.as_str());
        let number = ledger.register(CitationSource::Atom, id, None, excerpt.as_str());
        if let Some(number) = number {
            json::put(&mut entries, "citation_index", json::integer_json(number));
        }
    }
    ToolResult::ok(page_text(page, Json::Object(entries)), 1)
}

/// An atom that the scope does not admit, or that is not stored, does not
/// become citable by being looked at.
pub proof fn lemma_looking_cites_only_what_is_in_scope(
    page: PageContext,
    stored: Result<Option<StoredAtom>, String>,
    admitted: Result<bool, String>,
    items: Seq<CitableView>,
    mints: bool,
)
    requires
        admitted != Ok::<bool, String>(true) || !(stored matches Ok(Some(_))),
    ensures
        page_read(page, stored, admitted, items, mints).0 == items,
{
}

// ==================== Canvas navigation ====================

/// How the canvas is to be moved.
#[derive(Debug, Clone, Copy, PartialEq, Eq, Structural)]
pub enum CanvasAction {
    ZoomToCluster,
    FocusAtom,
}

impl CanvasAction {
    /// The name of the action.
    pub open spec fn name(self) -> Seq<char> {
        match self {
            CanvasAction::ZoomToCluster => "zoom_to_cluster"@,
            CanvasAction::FocusAtom => "focus_atom"@,
        }
    }

    /// The argument that says where to.
    pub open spec fn key(self) -> Seq<char> {
        match self {
            CanvasAction::ZoomToCluster => "cluster_label"@,
            CanvasAction::FocusAtom => "atom_id"@,
        }
    }

    /// What the model is told before the target.
    pub open spec fn done(self) -> Seq<char> {
        match self {
            CanvasAction::ZoomToCluster => "Zoomed canvas to cluster '"@,
            CanvasAction::FocusAtom => "Focused canvas on atom '"@,
        }
    }
}

/// What the frontend is asked to do.
#[derive(Debug, PartialEq)]
pub struct CanvasCommand {
    pub action: String,
    pub params: Json,
}

/// Asks the frontend to move its camera, and tells the model that it was asked
/// to.
pub fn navigate_canvas(action: CanvasAction, args: &Json) -> (asked: (CanvasCommand, ToolResult))
    ensures
        ({
            let target = lookup::text_arg(args@, action.key());
            let (command, result) = asked;
            &&& command.action@ == action.name()
            &&& command.params@ == JsonTree::Object(
                Map::<Seq<char>, JsonTree>::empty().insert(action.key(), JsonTree::Text(target)),
            )
            &&& result@ == ToolResultView::found(action.done() + target + "'"@, 1)
        }),
        action == CanvasAction::ZoomToCluster ==> asked.0.action@ == "zoom_to_cluster"@
            && asked.0.params@.field("cluster_label"@) == Some(
            JsonTree::Text(lookup::text_arg(args@, "cluster_label"@)),
        ) && asked.1@.output == "Zoomed canvas to cluster '"@ + lookup::text_arg(
            args@,
            "cluster_label"@,
        ) + "'"@,
        action == CanvasAction::FocusAtom ==> asked.0.action@ == "focus_atom"@
            && asked.0.params@.field("atom_id"@) == Some(
            JsonTree::Text(lookup::text_arg(args@, "atom_id"@)),
        ) && asked.1@.output == "Focused canvas on atom '"@ + lookup::text_arg(args@, "atom_id"@)
            + "'"@,
{
    let (name, key, done) = match action {
        CanvasAction::ZoomToCluster => (
            "zoom_to_cluster",
            "cluster_label",
            "Zoomed canvas to cluster '",
        ),
        CanvasAction::FocusAtom => ("focus_atom", "atom_id", "Focused canvas on atom '"),
    };
    let target = lookup::get_text_arg(args, key);
    let mut entries: Vec<(String, Json)> = Vec::new();
    json::put(&mut entries, key, json::string(target.as_str()));
    let mut output = String::from_str(done);
    output.append(target.as_str());
    output.append("'");
    (
        CanvasCommand { action: name.to_owned(), params: Json::Object(entries) },
        ToolResult::ok(output, 1),
    )
}

// ==================== What is written and told ====================

/// The texts of a list are taken one by one, in order; what is empty or no text
/// is passed over, and nothing else is.
pub proof fn lemma_every_full_text_is_taken(first: Seq<JsonTree>, last: JsonTree, text: Seq<char>)
    ensures
        full_texts(Seq::empty()).len() == 0,
        last == JsonTree::Text(text) && text.len() > 0 ==> full_texts(first.push(last))
            == full_texts(first).push(text),
        last == JsonTree::Text(text) && text.len() == 0 ==> full_texts(first.push(last))
            == full_texts(first),
        !(last is Text) ==> full_texts(first.push(last)) == full_texts(first),
{
    assert(first.push(last).drop_last() =~= first);
}

/// An atom is tagged with the tags that its arguments list, and with none where
/// they list none.
pub proof fn lemma_tags_are_those_listed(args: JsonTree, items: Seq<JsonTree>)
    ensures
        args.field("tag_ids"@) == Some(JsonTree::List(items)) ==> tag_ids_in(args) == full_texts(
            items,
        ),
        args.field("tag_ids"@) is None ==> tag_ids_in(args).len() == 0,
{
}

/// An update that saves an edit changes the content and nothing else, and only
/// while the atom is as it was read.
pub proof fn lemma_an_edit_changes_only_the_content(
    update: GuardedUpdate,
    existing: StoredAtom,
    content: Seq<char>,
)
    ensures
        saves_edit(update, existing, content) <==> {
            &&& update.request.content@ == content
            &&& text::optional(update.request.source_url) == text::optional(existing.source_url)
            &&& text::optional(update.request.published_at) == text::optional(
                existing.published_at,
            )
            &&& update.request.tag_ids is None
            &&& update.expected_updated_at@ == existing.updated_at@
        },
{
}

/// What the model is told of an atom that was written: its id, its title and its
/// snippet, how to refer to it, and its number where it has one.
pub proof fn lemma_a_change_is_told_as_it_is(
    id: Seq<char>,
    title: Seq<char>,
    snippet: Seq<char>,
    number: Option<i32>,
)
    ensures
        ({
            let note = change_note(id, title, snippet, number);
            &&& note.text_field("atom_id"@) == Some(id)
            &&& note.text_field("title"@) == Some(title)
            &&& note.text_field("snippet"@) == Some(snippet)
            &&& note.text_field("reference"@) == Some("[["@ + id + "]]"@)
            &&& match number {
                Some(number) => note.field("citation_index"@) == Some(
                    json::integer(number as int),
                ),
                None => note.field("citation_index"@) is None,
            }
        }),
{
    reveal_strlit("atom_id");
    reveal_strlit("title");
    reveal_strlit("snippet");
    reveal_strlit("reference");
    reveal_strlit("citation_index");
    assert("atom_id"@.len() == 7 && "title"@.len() == 5 && "snippet"@.len() == 7
        && "reference"@.len() == 9 && "citation_index"@.len() == 14);
    assert("atom_id"@[0] != "snippet"@[0]);
}

/// The fields that are shown of the atom that is looked at: what is stored of
/// it, tags and all, and where nothing is stored what the page says of it, with a
/// word that it was not found.
pub proof fn lemma_the_atom_on_the_page_is_shown(
    page: PageContext,
    id: Seq<char>,
    stored: Option<StoredAtom>,
)
    ensures
        ({
            let shown = JsonTree::Object(atom_fields(page, id, stored));
            match stored {
                Some(atom) => {
                    &&& shown.text_field("id"@) == Some(atom.id@)
                    &&& shown.text_field("title"@) == Some(atom.title@)
                    &&& shown.text_field("snippet"@) == Some(atom.snippet@)
                    &&& shown.field("source_url"@) == Some(
                        json::text_or_null(text::optional(atom.source_url)),
                    )
                    &&& shown.field("tags"@) matches Some(JsonTree::List(tags))
                    &&& tags.len() == atom.tags@.len()
                    &&& shown.field("not_found"@) is None
                },
                None => {
                    &&& shown.text_field("id"@) == Some(id)
                    &&& shown.field("title"@) == Some(
                        json::text_or_null(text::optional(page.atom_title)),
                    )
                    &&& shown.field("snippet"@) == Some(
                        json::text_or_null(text::optional(page.atom_snippet)),
                    )
                    &&& shown.field("not_found"@) == Some(JsonTree::Bool(true))
                },
            }
        }),
{
    reveal_strlit("id");
    reveal_strlit("title");
    reveal_strlit("snippet");
    reveal_strlit("source_url");
    reveal_strlit("tags");
    reveal_strlit("not_found");
    assert("id"@.len() == 2 && "title"@.len() == 5 && "snippet"@.len() == 7 && "source_url"@.len()
        == 10 && "tags"@.len() == 4 && "not_found"@.len() == 9);
}

/// A tag is shown by its id and its name.
pub proof fn lemma_a_tag_is_told_as_it_is(tag: Tag)
    ensures
        tag_json(tag).text_field("id"@) == Some(tag.id@),
        tag_json(tag).text_field("name"@) == Some(tag.name@),
{
    reveal_strlit("id");
    reveal_strlit("name");
    assert("id"@.len() != "name"@.len());
}

/// The page is told as the frontend gave it, around the atom on it.
pub proof fn lemma_the_page_is_told_as_it_is(page: PageContext, atom: JsonTree)
    ensures
        ({
            let told = page_json(page, atom);
            &&& told.field("view"@) == Some(json::text_or_null(text::optional(page.view)))
            &&& told.field("visible_atom"@) == Some(atom)
            &&& told.field("selected_tag_id"@) == Some(
                json::text_or_null(text::optional(page.selected_tag_id)),
            )
            &&& told.field("wiki"@) matches Some(wiki)
            &&& wiki.field("tag_id"@) == Some(
                json::text_or_null(text::optional(page.wiki_tag_id)),
            )
            &&& wiki.field("tag_name"@) == Some(
                json::text_or_null(text::optional(page.wiki_tag_name)),
            )
        }),
{
    reveal_strlit("view");
    reveal_strlit("visible_atom");
    reveal_strlit("wiki");
    reveal_strlit("selected_tag_id");
    reveal_strlit("tag_id");
    reveal_strlit("tag_name");
    assert("view"@.len() == 4 && "visible_atom"@.len() == 12 && "wiki"@.len() == 4
        && "selected_tag_id"@.len() == 15 && "tag_id"@.len() == 6 && "tag_name"@.len() == 8);
    assert("view"@[0] != "wiki"@[0]);
}

/// What looking at the page tells: the page around nothing where no atom is on
/// it, and else around what is stored of that atom. An atom that is stored, that
/// the scope admits and that has a snippet becomes citable, and its number is
/// told with it; everything else is told and not cited.
pub proof fn lemma_looking_tells_the_page(
    page: PageContext,
    stored: Option<StoredAtom>,
    admitted: bool,
    items: Seq<CitableView>,
    mints: bool,
)
    requires
        citations::is_ledger(items),
        items.len() + 1 < i32::MAX,
    ensures
        ({
            let (after, told) = page_read(page, Ok(stored), Ok(admitted), items, mints);
            let bare = page.atom_id is None || page.atom_id->0@.len() == 0;
            &&& !told.failed
            &&& told.results_count == 1
            &&& bare ==> after == items && told.output == json::pretty_text_of(
                page_json(page, JsonTree::Null),
            )
            &&& !bare ==> ({
                let fields = atom_fields(page, page.atom_id->0@, stored);
                let citable = stored is Some && admitted && stored->0.snippet@.len() > 0;
                &&& !citable ==> after == items && told.output == json::pretty_text_of(
                    page_json(page, JsonTree::Object(fields)),
                )
                &&& citable && mints ==> exists|number: i32|
                    #![trigger json::integer(number as int)]
                    {
                        &&& lookup::cites(
                            after,
                            Some(number),
                            CitationSource::Atom,
                            page.atom_id->0@,
                        )
                        &&& told.output == json::pretty_text_of(
                            page_json(
                                page,
                                JsonTree::Object(
                                    fields.insert(
                                        "citation_index"@,
                                        json::integer(number as int),
                                    ),
                                ),
                            ),
                        )
                    }
            })
        }),
{
    let bare = page.atom_id is None || page.atom_id->0@.len() == 0;
    if !bare && stored is Some && admitted && stored->0.snippet@.len() > 0 && mints {
        let id = page.atom_id->0@;
        let excerpt = reading::excerpt_of(stored->0.snippet@);
        let (after, number) = citations::registered(
            items,
            mints,
            CitationSource::Atom,
            id,
            None,
            excerpt,
        );
        citations::lemma_ledger_only_grows(items, mints, CitationSource::Atom, id, None, excerpt);
        citations::lemma_evidence_is_kept_as_given(
            items,
            mints,
            CitationSource::Atom,
            id,
            None,
            excerpt,
        );
        let shown = number->0;
        let told = json::integer(shown as int);
        assert(lookup::cites(after, Some(shown), CitationSource::Atom, id));
    }
}

} // verus!
