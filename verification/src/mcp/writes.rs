//! The tools that write. What they decide is carried out elsewhere, and what
//! came of it is handed back.

use crate::chat_tools::changes;
use crate::chat_tools::changes::CreateAtomRequest;
use crate::chat_tools::changes::GuardedUpdate;
use crate::chat_tools::changes::UpdateAtomRequest;
use crate::chat_tools::lookup::StoredAtom;
use crate::chat_tools::reading;
use crate::mcp::reads;
use crate::mcp::reads::Answer;
use crate::mcp::types::AtomResponse;
use crate::mcp::types::CreateAtomParams;
use crate::mcp::types::EditOperation;
use crate::mcp::types::IngestUrlResponse;
use crate::mcp::types::UpdateAtomParams;
use crate::text;
use vstd::prelude::*;

verus! {

/// An atom after it was saved.
#[derive(Debug, PartialEq)]
pub struct SavedAtom {
    pub atom: StoredAtom,
    pub embedding_status: String,
}

/// Whether a response shows an atom that was saved.
pub open spec fn shows_saved(response: AtomResponse, saved: SavedAtom) -> bool {
    &&& response.atom_id@ == saved.atom.id@
    &&& response.content_preview@ == reading::excerpt_of(saved.atom.content@)
    &&& text::texts(response.tags@) == reads::tag_names(saved.atom.tags@)
    &&& response.embedding_status@ == saved.embedding_status@
}

/// Shows an atom that was saved.
pub fn saved_response(saved: &SavedAtom) -> (response: AtomResponse)
    ensures
        shows_saved(response, *saved),
{
    AtomResponse {
        atom_id: saved.atom.id.clone(),
        content_preview: reading::excerpt(saved.atom.content.as_str()),
        tags: reads::names_of(&saved.atom.tags),
        embedding_status: saved.embedding_status.clone(),
    }
}

/// What saving an atom came to.
pub fn saved_or_error(result: Result<SavedAtom, String>) -> (answer: Result<AtomResponse, String>)
    ensures
        match result {
            Ok(saved) => answer matches Ok(response) && shows_saved(response, saved),
            Err(error) => answer matches Err(text) && text@ == error@,
        },
{
    match result {
        Ok(saved) => Ok(saved_response(&saved)),
        Err(error) => Err(error),
    }
}

// ==================== create_atom ====================

/// The atom to create: without tags, and although its source may be stored
/// already.
pub fn create_request(params: CreateAtomParams) -> (request: CreateAtomRequest)
    ensures
        request.content@ == params.content@,
        text::optional(request.source_url) == text::optional(params.source_url),
        request.published_at is None,
        request.tag_ids@.len() == 0,
        !request.skip_if_source_exists,
{
    CreateAtomRequest {
        content: params.content,
        source_url: params.source_url,
        published_at: None,
        tag_ids: Vec::new(),
        skip_if_source_exists: false,
    }
}

/// What creating an atom came to.
pub fn created(result: Result<Option<SavedAtom>, String>) -> (answer: Result<AtomResponse, String>)
    ensures
        match result {
            Ok(Some(saved)) => answer matches Ok(response) && shows_saved(response, saved),
            Ok(None) => answer matches Err(text) && text@ == "Atom creation returned None"@,
            Err(error) => answer matches Err(text) && text@ == error@,
        },
{
    match result {
        Ok(Some(saved)) => Ok(saved_response(&saved)),
        Ok(None) => Err(String::from_str("Atom creation returned None")),
        Err(error) => Err(error),
    }
}

// ==================== ingest_url ====================

/// A URL that is to be fetched and saved.
#[derive(Debug, PartialEq)]
pub struct IngestionRequest {
    pub url: String,
    pub tag_ids: Vec<String>,
    pub title_hint: Option<String>,
    pub published_at: Option<String>,
}

/// The fetch of a URL, with nothing known of the page.
pub fn ingestion_request(url: String) -> (request: IngestionRequest)
    ensures
        request.url@ == url@,
        request.tag_ids@.len() == 0,
        request.title_hint is None,
        request.published_at is None,
{
    IngestionRequest { url, tag_ids: Vec::new(), title_hint: None, published_at: None }
}

/// What ingesting a URL came to.
#[derive(Debug, PartialEq)]
pub struct IngestionResult {
    pub atom_id: String,
    pub url: String,
    pub title: String,
    pub content_length: usize,
}

/// The answer for a URL that an atom was made of before, so that nothing is
/// fetched; `None` where there is no such atom.
pub fn already_ingested(url: &str, existing: Result<Option<StoredAtom>, String>) -> (answer: Result<
    Option<IngestUrlResponse>,
    String,
>)
    ensures
        match existing {
            Err(error) => answer matches Err(text) && text@ == error@,
            Ok(None) => answer matches Ok(None),
            Ok(Some(atom)) => {
                &&& answer matches Ok(Some(response))
                &&& response.atom_id@ == atom.id@
                &&& response.url@ == (match text::optional(atom.source_url) {
                    Some(stored) => stored,
                    None => url@,
                })
                &&& response.title@ == atom.title@
                &&& response.content_length == text::byte_length(atom.content@)
                &&& response.already_exists
            },
        },
{
    match existing {
        Err(error) => Err(error),
        Ok(None) => Ok(None),
        Ok(Some(atom)) => {
            let content_length: usize = text::byte_len(atom.content.as_str());
            Ok(
                Some(
                    IngestUrlResponse {
                        atom_id: atom.id,
                        url: match atom.source_url {
                            Some(stored) => stored,
                            None => url.to_owned(),
                        },
                        title: atom.title,
                        content_length,
                        already_exists: true,
                    },
                ),
            )
        },
    }
}

/// The answer for a URL that was fetched.
pub fn ingested(result: Result<IngestionResult, String>) -> (answer: Result<
    IngestUrlResponse,
    String,
>)
    ensures
        match result {
            Err(error) => answer matches Err(text) && text@ == error@,
            Ok(result) => {
                &&& answer matches Ok(response)
                &&& response.atom_id@ == result.atom_id@
                &&& response.url@ == result.url@
                &&& response.title@ == result.title@
                &&& response.content_length == result.content_length
                &&& !response.already_exists
            },
        },
{
    match result {
        Err(error) => Err(error),
        Ok(result) => Ok(
            IngestUrlResponse {
                atom_id: result.atom_id,
                url: result.url,
                title: result.title,
                content_length: result.content_length,
                already_exists: false,
            },
        ),
    }
}

// ==================== update_atom ====================

/// What an update may be: a change to save, or a sentence that says why there
/// is none.
pub type Plan = Result<Answer<GuardedUpdate>, String>;

/// Whether an update names nothing to change.
pub open spec fn changes_nothing(params: UpdateAtomParams) -> bool {
    &&& params.content is None
    &&& params.source_url is None
    &&& params.published_at is None
    &&& params.tag_ids is None
}

/// The one of two texts that counts: the new one where there is one.
pub open spec fn kept_or_new(new: Option<String>, old_value: Option<String>) -> Option<Seq<char>> {
    match new {
        Some(new) => Some(new@),
        None => text::optional(old_value),
    }
}

/// What optional tag ids are.
pub open spec fn optional_ids(ids: Option<Vec<String>>) -> Option<Seq<Seq<char>>> {
    match ids {
        Some(ids) => Some(text::texts(ids@)),
        None => None,
    }
}

/// The update of an atom. What is not named is kept as it is, and the atom must
/// not have changed since it was read.
pub fn update_request(params: UpdateAtomParams, existing: Result<Option<StoredAtom>, String>) -> (plan:
    Plan)
    ensures
        match existing {
            Err(error) => plan matches Err(text) && text@ == error@,
            Ok(None) => plan matches Ok(Answer::Sentence(text)) && text@ == reads::missing_atom(
                params.atom_id@,
            ),
            Ok(Some(atom)) => if changes_nothing(params) {
                plan matches Ok(Answer::Sentence(text)) && text@ == "No update fields provided"@
            } else if params.content matches Some(content) && text::blank(content@) {
                plan matches Ok(Answer::Sentence(text)) && text@
                    == "Cannot update an atom to empty content"@
            } else {
                &&& plan matches Ok(Answer::Payload(update))
                &&& update.expected_updated_at@ == atom.updated_at@
                &&& update.request.content@ == (match params.content {
                    Some(content) => content@,
                    None => atom.content@,
                })
                &&& text::optional(update.request.source_url) == kept_or_new(
                    params.source_url,
                    atom.source_url,
                )
                &&& text::optional(update.request.published_at) == kept_or_new(
                    params.published_at,
                    atom.published_at,
                )
                &&& optional_ids(update.request.tag_ids) == optional_ids(params.tag_ids)
            },
        },
{
    let atom = match existing {
        Err(error) => {
            return Err(error);
        },
        Ok(None) => {
            return Ok(Answer::Sentence(reads::atom_not_found(params.atom_id.as_str())));
        },
        Ok(Some(atom)) => atom,
    };
    if params.content.is_none() && params.source_url.is_none() && params.published_at.is_none()
        && params.tag_ids.is_none() {
        return Ok(Answer::Sentence(String::from_str("No update fields provided")));
    }
    let content = match params.content {
        Some(content) => {
            if text::is_blank(content.as_str()) {
                return Ok(
                    Answer::Sentence(String::from_str("Cannot update an atom to empty content")),
                );
            }
            content
        },
        None => atom.content,
    };
    let source_url = match params.source_url {
        Some(url) => Some(url),
        None => atom.source_url,
    };
    let published_at = match params.published_at {
        Some(date) => Some(date),
        None => atom.published_at,
    };
    Ok(
        Answer::Payload(
            GuardedUpdate {
                request: UpdateAtomRequest {
                    content,
                    source_url,
                    published_at,
                    tag_ids: params.tag_ids,
                },
                expected_updated_at: atom.updated_at,
            },
        ),
    )
}

// ==================== edit_atom ====================

/// An edit of an atom's content.
#[derive(Debug, PartialEq)]
pub struct AtomEditOperation {
    pub operation: String,
    pub old_text: Option<String>,
    pub new_text: Option<String>,
    pub anchor_text: Option<String>,
    pub text: Option<String>,
    pub content: Option<String>,
}

/// Whether an edit is the one that was asked for.
pub open spec fn same_edit(edit: AtomEditOperation, asked: EditOperation) -> bool {
    &&& edit.operation@ == asked.operation@
    &&& text::optional(edit.old_text) == text::optional(asked.old_text)
    &&& text::optional(edit.new_text) == text::optional(asked.new_text)
    &&& text::optional(edit.anchor_text) == text::optional(asked.anchor_text)
    &&& text::optional(edit.text) == text::optional(asked.text)
    &&& text::optional(edit.content) == text::optional(asked.content)
}

/// The edits that were asked for, in order.
pub fn edit_operations(asked: &Vec<EditOperation>) -> (edits: Vec<AtomEditOperation>)
    ensures
        edits@.len() == asked@.len(),
        forall|i: int| 0 <= i < edits@.len() ==> same_edit(#[trigger] edits@[i], asked@[i]),
        forall|i: int|
            0 <= i < edits@.len() ==> {
                &&& (#[trigger] edits@[i]).operation@ == asked@[i].operation@
                &&& text::optional(edits@[i].old_text) == text::optional(asked@[i].old_text)
                &&& text::optional(edits@[i].new_text) == text::optional(asked@[i].new_text)
                &&& text::optional(edits@[i].anchor_text) == text::optional(asked@[i].anchor_text)
                &&& text::optional(edits@[i].text) == text::optional(asked@[i].text)
                &&& text::optional(edits@[i].content) == text::optional(asked@[i].content)
            },
{
    let mut edits: Vec<AtomEditOperation> = Vec::new();
    let mut at: usize = 0;
    while at < asked.len()
        invariant
            at <= asked.len(),
            edits@.len() == at,
            forall|i: int| 0 <= i < at ==> same_edit(#[trigger] edits@[i], asked@[i]),
        decreases asked.len() - at,
    {
        let edit = &asked[at];
        edits.push(
            AtomEditOperation {
                operation: edit.operation.clone(),
                old_text: text::copy_optional(&edit.old_text),
                new_text: text::copy_optional(&edit.new_text),
                anchor_text: text::copy_optional(&edit.anchor_text),
                text: text::copy_optional(&edit.text),
                content: text::copy_optional(&edit.content),
            },
        );
        at = at + 1;
    }
    edits
}

/// Whether two optional texts are both missing or both there and the same.
pub open spec fn same_part(part: Option<String>, asked: Option<String>) -> bool {
    match (part, asked) {
        (Some(part), Some(asked)) => part@ == asked@,
        (None, None) => true,
        _ => false,
    }
}

/// An edit that is handed on is the one that was asked for, part by part: an
/// insertion keeps its anchor and its text, a replacement what it replaces and
/// what by, and an edit that leaves a part out is handed on without it.
pub proof fn lemma_an_edit_keeps_each_part(edit: AtomEditOperation, asked: EditOperation)
    ensures
        same_edit(edit, asked) <==> {
            &&& edit.operation@ == asked.operation@
            &&& same_part(edit.old_text, asked.old_text)
            &&& same_part(edit.new_text, asked.new_text)
            &&& same_part(edit.anchor_text, asked.anchor_text)
            &&& same_part(edit.text, asked.text)
            &&& same_part(edit.content, asked.content)
        },
{
}

/// An edit with the parts that were asked for is the edit that was asked for,
/// and one that differs from it in any part is not.
pub proof fn lemma_an_edit_is_itself_and_no_other(asked: EditOperation, edit: AtomEditOperation)
    ensures
        same_edit(
            AtomEditOperation {
                operation: asked.operation,
                old_text: asked.old_text,
                new_text: asked.new_text,
                anchor_text: asked.anchor_text,
                text: asked.text,
                content: asked.content,
            },
            asked,
        ),
        same_edit(edit, asked) && asked.operation@ == "insert_after"@ && asked.anchor_text is Some
            ==> edit.operation@ == "insert_after"@ && edit.anchor_text is Some
            && edit.anchor_text->0@ == asked.anchor_text->0@,
        same_edit(edit, asked) && asked.operation@ == "append"@ && asked.text is Some
            ==> edit.operation@ == "append"@ && edit.text is Some && edit.text->0@
            == asked.text->0@,
{
}

/// The atom that is to be edited, or why there is none.
pub fn atom_to_edit(atom_id: &str, existing: Result<Option<StoredAtom>, String>) -> (found: Result<
    Answer<StoredAtom>,
    String,
>)
    ensures
        match existing {
            Err(error) => found matches Err(text) && text@ == error@,
            Ok(None) => found matches Ok(Answer::Sentence(text)) && text@ == reads::missing_atom(
                atom_id@,
            ),
            Ok(Some(atom)) => found == Ok::<_, String>(Answer::Payload(atom)),
        },
{
    match existing {
        Err(error) => Err(error),
        Ok(None) => Ok(Answer::Sentence(reads::atom_not_found(atom_id))),
        Ok(Some(atom)) => Ok(Answer::Payload(atom)),
    }
}

/// The update that saves edits, where `edited` is what they came to. Nothing is
/// saved where an edit failed or where they changed nothing or left nothing.
pub fn edit_request(existing: &StoredAtom, edited: Result<String, String>) -> (plan: Answer<
    GuardedUpdate,
>)
    ensures
        match edited {
            Err(error) => plan matches Answer::Sentence(text) && text@ == error@,
            Ok(content) => if content@ == existing.content@ {
                plan matches Answer::Sentence(text) && text@
                    == "Edits did not change the atom content"@
            } else if text::blank(content@) {
                plan matches Answer::Sentence(text) && text@
                    == "Cannot update an atom to empty content"@
            } else {
                &&& plan matches Answer::Payload(update)
                &&& changes::saves_edit(update, *existing, content@)
                &&& update.request.content@ == content@
                &&& text::optional(update.request.source_url) == text::optional(
                    existing.source_url,
                )
                &&& text::optional(update.request.published_at) == text::optional(
                    existing.published_at,
                )
                &&& update.request.tag_ids is None
                &&& update.expected_updated_at@ == existing.updated_at@
            },
        },
{
    match changes::plan_edit(existing, edited) {
        Ok(update) => Answer::Payload(update),
        Err(reason) => Answer::Sentence(reason),
    }
}

/// What is shown of an atom that was saved is that atom: its id, the start of
/// its content, the names of its tags and how far it is processed.
pub proof fn lemma_a_saved_atom_is_shown_as_it_is(response: AtomResponse, saved: SavedAtom)
    ensures
        shows_saved(response, saved) <==> {
            &&& response.atom_id@ == saved.atom.id@
            &&& response.content_preview@ == reading::excerpt_of(saved.atom.content@)
            &&& response.tags@.len() == saved.atom.tags@.len()
            &&& forall|i: int|
                0 <= i < response.tags@.len() ==> (#[trigger] response.tags@[i])@
                    == saved.atom.tags@[i].name@
            &&& response.embedding_status@ == saved.embedding_status@
        },
{
    let shown = text::texts(response.tags@);
    let names = reads::tag_names(saved.atom.tags@);
    if shown == names {
        assert forall|i: int| 0 <= i < response.tags@.len() implies (
        #[trigger] response.tags@[i])@ == saved.atom.tags@[i].name@ by {
            assert(shown[i] == names[i]);
        }
    }
    if response.tags@.len() == saved.atom.tags@.len() && forall|i: int|
        0 <= i < response.tags@.len() ==> (#[trigger] response.tags@[i])@
            == saved.atom.tags@[i].name@ {
        assert(shown =~= names);
    }
}

/// An update changes what it names and keeps the rest: what is given counts,
/// and what is left out stays as it was.
pub proof fn lemma_what_is_left_out_stays(
    params: UpdateAtomParams,
    new: String,
    old_value: Option<String>,
)
    ensures
        kept_or_new(Some(new), old_value) == Some(new@),
        kept_or_new(None, old_value) == text::optional(old_value),
        changes_nothing(params) <==> params.content is None && params.source_url is None
            && params.published_at is None && params.tag_ids is None,
        optional_ids(params.tag_ids) is Some <==> params.tag_ids is Some,
        params.tag_ids matches Some(ids) ==> {
            &&& optional_ids(params.tag_ids)->0.len() == ids@.len()
            &&& forall|i: int|
                0 <= i < ids@.len() ==> (#[trigger] optional_ids(params.tag_ids)->0[i])
                    == ids@[i]@
        },
{
}

} // verus!
