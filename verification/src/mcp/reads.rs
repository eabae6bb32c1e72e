//! The tools that search and read. What they fetch is handed to them.

use crate::chat_tools::lookup::StoredAtom;
use crate::chat_tools::reading;
use crate::chat_tools::scope::Tag;
use crate::mcp::types::AtomContent;
use crate::mcp::types::DatabaseListItem;
use crate::mcp::types::DeepSearchParams;
use crate::mcp::types::DeepSearchResponse;
use crate::mcp::types::DeepSearchResult;
use crate::mcp::types::FetchMetadata;
use crate::mcp::types::FetchResponse;
use crate::mcp::types::FindSimilarParams;
use crate::mcp::types::ReadAtomParams;
use crate::mcp::types::SearchResult;
use crate::mcp::types::SemanticSearchParams;
use crate::mcp::types::SimilarAtomItem;
use crate::text;
use std::sync::Arc;
use vstd::prelude::*;

verus! {

/// What a tool answers with.
#[derive(Debug, PartialEq)]
pub enum Answer<T> {
    /// A sentence, sent as it stands.
    Sentence(String),
    /// A payload, sent as JSON.
    Payload(T),
}

/// What is said of an atom that is not there.
pub open spec fn missing_atom(id: Seq<char>) -> Seq<char> {
    "Atom not found: "@ + id
}

pub fn atom_not_found(id: &str) -> (text: String)
    ensures
        text@ == missing_atom(id@),
        text@ == "Atom not found: "@ + id@,
{
    String::from_str("Atom not found: ").concat(id)
}

/// What a number is, kept between `low` and `high`; `otherwise` where there is
/// none.
pub open spec fn clamped(value: Option<i32>, otherwise: i32, low: i32, high: i32) -> i32 {
    let value = match value {
        Some(value) => value,
        None => otherwise,
    };
    if value < low {
        low
    } else if value > high {
        high
    } else {
        value
    }
}

pub fn clamp(value: Option<i32>, otherwise: i32, low: i32, high: i32) -> (kept: i32)
    ensures
        kept == clamped(value, otherwise, low, high),
{
    let value: i32 = match value {
        Some(value) => value,
        None => otherwise,
    };
    if value < low {
        low
    } else if value > high {
        high
    } else {
        value
    }
}

// ==================== Which database ====================

/// The database that a connection's URL selects.
#[derive(Debug, PartialEq)]
pub struct DbSelection(pub Option<String>);

/// A manager of databases that a request brings along, in place of the
/// server's own.
pub struct RequestManager<M>(pub Arc<M>);

/// The server, over a manager of databases.
pub struct AtomicMcpServer<M> {
    manager: Arc<M>,
}

impl<M> AtomicMcpServer<M> {
    /// The manager that requests fall back to.
    pub closed spec fn baked_in(&self) -> Arc<M> {
        self.manager
    }

    pub fn new(manager: Arc<M>) -> (server: AtomicMcpServer<M>)
        ensures
            server.baked_in() == manager,
    {
        AtomicMcpServer { manager }
    }

    /// The manager that a request resolves against: the one that it brings
    /// along, else the server's own.
    pub fn request_manager<'a>(&'a self, installed: Option<&'a RequestManager<M>>) -> (manager:
        &'a Arc<M>)
        ensures
            *manager == (match installed {
                Some(installed) => installed.0,
                None => self.baked_in(),
            }),
    {
        match installed {
            Some(installed) => &installed.0,
            None => &self.manager,
        }
    }
}

/// The id of the database that a connection selects.
pub open spec fn selected_id(selection: Option<DbSelection>) -> Option<Seq<char>> {
    match selection {
        Some(selection) => text::optional(selection.0),
        None => None,
    }
}

/// The database that tool calls on a connection open: the one that it selects,
/// else the active one, which is `None` here.
pub fn database_to_open(selection: &Option<DbSelection>) -> (id: Option<String>)
    ensures
        text::optional(id) == selected_id(*selection),
{
    match selection {
        Some(selection) => text::copy_optional(&selection.0),
        None => None,
    }
}

/// What is said where the database did not open.
pub fn database_failure(selection: &Option<DbSelection>, error: &str) -> (text: String)
    ensures
        text@ == (match selected_id(*selection) {
            Some(_) => "Database not found: "@ + error@,
            None => error@,
        }),
{
    match database_to_open(selection) {
        Some(_) => String::from_str("Database not found: ").concat(error),
        None => error.to_owned(),
    }
}

/// A database as its manager lists it.
#[derive(Debug, PartialEq)]
pub struct DatabaseInfo {
    pub id: String,
    pub name: String,
    pub is_default: bool,
}

/// The id of the database that tool calls operate on.
pub open spec fn operating_id(selection: Option<DbSelection>, active: Seq<char>) -> Seq<char> {
    match selected_id(selection) {
        Some(id) => id,
        None => active,
    }
}

/// Whether an item shows a database, `selected` being the one in use.
pub open spec fn shows_database(
    item: DatabaseListItem,
    info: DatabaseInfo,
    selected: Seq<char>,
) -> bool {
    &&& item.database_id@ == info.id@
    &&& item.name@ == info.name@
    &&& item.is_default == info.is_default
    &&& item.selected == (info.id@ == selected)
}

/// Lists the databases and marks the one that tool calls on this connection
/// operate on.
pub fn list_databases(
    databases: Result<(Vec<DatabaseInfo>, String), String>,
    selection: &Option<DbSelection>,
) -> (listed: Result<Vec<DatabaseListItem>, String>)
    ensures
        match databases {
            Err(error) => listed matches Err(text) && text@ == error@,
            Ok((databases, active)) => {
                &&& listed matches Ok(items)
                &&& items@.len() == databases@.len()
                &&& forall|i: int|
                    0 <= i < items@.len() ==> shows_database(
                        #[trigger] items@[i],
                        databases@[i],
                        operating_id(*selection, active@),
                    )
            },
        },
{
    let (databases, active) = match databases {
        Ok(found) => found,
        Err(error) => {
            return Err(error);
        },
    };
    let selected = match database_to_open(selection) {
        Some(id) => id,
        None => active,
    };
    let mut items: Vec<DatabaseListItem> = Vec::new();
    let mut at: usize = 0;
    while at < databases.len()
        invariant
            at <= databases.len(),
            items@.len() == at,
            forall|i: int|
                0 <= i < at ==> shows_database(#[trigger] items@[i], databases@[i], selected@),
        decreases databases.len() - at,
    {
        let info = &databases[at];
        items.push(
            DatabaseListItem {
                selected: text::same_text(info.id.as_str(), selected.as_str()),
                database_id: info.id.clone(),
                name: info.name.clone(),
                is_default: info.is_default,
            },
        );
        at = at + 1;
    }
    Ok(items)
}

/// The database that a listing marks is the one that tool calls on the same
/// connection open.
pub proof fn lemma_marked_is_opened(
    selection: Option<DbSelection>,
    active: Seq<char>,
    item: DatabaseListItem,
    info: DatabaseInfo,
)
    requires
        shows_database(item, info, operating_id(selection, active)),
    ensures
        item.selected <==> match selected_id(selection) {
            Some(id) => item.database_id@ == id,
            None => item.database_id@ == active,
        },
{
}

// ==================== Search ====================

/// Which atoms a search or a listing is about.
#[derive(Debug, Clone, Copy, PartialEq, Eq, Structural)]
pub enum KindFilter {
    All,
    /// Only what the user captured, not what reports generated.
    CapturedOnly,
}

/// Which atoms a client gets: captured ones, unless it asks for more.
pub open spec fn kinds_of(include_generated: Option<bool>) -> KindFilter {
    if include_generated == Some(true) {
        KindFilter::All
    } else {
        KindFilter::CapturedOnly
    }
}

pub fn pick_kinds(generated_too: Option<bool>) -> (kinds: KindFilter)
    ensures
        kinds == kinds_of(generated_too),
{
    match generated_too {
        Some(true) => KindFilter::All,
        _ => KindFilter::CapturedOnly,
    }
}

/// A hybrid search over atoms that are similar enough.
#[derive(Debug, PartialEq)]
pub struct SearchOptions {
    pub query: String,
    pub limit: i32,
    pub since_days: Option<i32>,
    /// The tags that the search stays under; none of them where it is empty.
    pub scope: Vec<String>,
    pub kinds: KindFilter,
}

/// What a search asks for.
pub fn semantic_search_options(params: SemanticSearchParams) -> (options: SearchOptions)
    ensures
        options.query@ == params.query@,
        options.limit == clamped(params.limit, 10, i32::MIN, 50),
        options.since_days == params.since_days,
        text::texts(options.scope@) == (match text::optional(params.tag_id) {
            Some(tag) => seq![tag],
            None => Seq::empty(),
        }),
        options.kinds == kinds_of(params.include_generated),
{
    let mut scope: Vec<String> = Vec::new();
    let ghost wanted = text::optional(params.tag_id);
    if let Some(tag) = params.tag_id {
        scope.push(tag);
        assert(text::texts(scope@) =~= seq![tag@]);
    } else {
        assert(text::texts(scope@) =~= Seq::empty());
    }
    SearchOptions {
        query: params.query,
        limit: clamp(params.limit, 10, i32::MIN, 50),
        since_days: params.since_days,
        scope,
        kinds: pick_kinds(params.include_generated),
    }
}

/// What a search for documents asks for: ten captured atoms, whatever their
/// age and tags.
pub fn deep_search_options(params: DeepSearchParams) -> (options: SearchOptions)
    ensures
        options.query@ == params.query@,
        options.limit == 10,
        options.since_days is None,
        text::texts(options.scope@) == Seq::<Seq<char>>::empty(),
        options.kinds == KindFilter::CapturedOnly,
{
    semantic_search_options(
        SemanticSearchParams {
            query: params.query,
            limit: None,
            since_days: None,
            tag_id: None,
            include_generated: None,
        },
    )
}

/// A result of a search.
#[derive(Debug, PartialEq)]
pub struct FoundAtom {
    pub id: String,
    pub title: String,
    pub content: String,
    pub source_url: Option<String>,
    /// The score's bits as a float of 32 bits.
    pub similarity_score_bits: u32,
    pub matching_chunk: String,
}

pub open spec fn shows_hit(item: SearchResult, found: FoundAtom) -> bool {
    &&& item.atom_id@ == found.id@
    &&& item.content_preview@ == reading::excerpt_of(found.content@)
    &&& item.similarity_score_bits == found.similarity_score_bits
    &&& item.matching_chunk@ == found.matching_chunk@
}

/// Shows what a search found, in the order that it was found in.
pub fn search_results(results: &Vec<FoundAtom>) -> (items: Vec<SearchResult>)
    ensures
        items@.len() == results@.len(),
        forall|i: int| 0 <= i < items@.len() ==> shows_hit(#[trigger] items@[i], results@[i]),
{
    let mut items: Vec<SearchResult> = Vec::new();
    let mut at: usize = 0;
    while at < results.len()
        invariant
            at <= results.len(),
            items@.len() == at,
            forall|i: int| 0 <= i < at ==> shows_hit(#[trigger] items@[i], results@[i]),
        decreases results.len() - at,
    {
        let found = &results[at];
        items.push(
            SearchResult {
                atom_id: found.id.clone(),
                content_preview: reading::excerpt(found.content.as_str()),
                similarity_score_bits: found.similarity_score_bits,
                matching_chunk: found.matching_chunk.clone(),
            },
        );
        at = at + 1;
    }
    items
}

pub open spec fn shows_document(item: DeepSearchResult, found: FoundAtom) -> bool {
    &&& item.id@ == found.id@
    &&& item.title@ == found.title@
    &&& item.text@ == found.matching_chunk@
    &&& text::optional(item.url) == text::optional(found.source_url)
}

/// Shows what a search found as documents.
pub fn deep_search_results(results: &Vec<FoundAtom>) -> (response: DeepSearchResponse)
    ensures
        response.results@.len() == results@.len(),
        forall|i: int|
            0 <= i < results@.len() ==> shows_document(
                #[trigger] response.results@[i],
                results@[i],
            ),
{
    let mut items: Vec<DeepSearchResult> = Vec::new();
    let mut at: usize = 0;
    while at < results.len()
        invariant
            at <= results.len(),
            items@.len() == at,
            forall|i: int| 0 <= i < at ==> shows_document(#[trigger] items@[i], results@[i]),
        decreases results.len() - at,
    {
        let found = &results[at];
        items.push(
            DeepSearchResult {
                id: found.id.clone(),
                title: found.title.clone(),
                text: found.matching_chunk.clone(),
                url: text::copy_optional(&found.source_url),
            },
        );
        at = at + 1;
    }
    DeepSearchResponse { results: items }
}

/// How many neighbors of an atom are looked for.
pub fn similar_limit(params: &FindSimilarParams) -> (limit: i32)
    ensures
        limit == clamped(params.limit, 10, 1, 50),
{
    clamp(params.limit, 10, 1, 50)
}

pub open spec fn shows_neighbor(item: SimilarAtomItem, found: FoundAtom) -> bool {
    &&& item.atom_id@ == found.id@
    &&& item.title@ == found.title@
    &&& item.content_preview@ == reading::excerpt_of(found.content@)
    &&& item.similarity_score_bits == found.similarity_score_bits
}

/// Shows the neighbors of an atom. `exists_atom` is whether there is such an
/// atom.
pub fn find_similar(
    params: &FindSimilarParams,
    exists_atom: Result<bool, String>,
    results: Result<Vec<FoundAtom>, String>,
) -> (answer: Result<Answer<Vec<SimilarAtomItem>>, String>)
    ensures
        match exists_atom {
            Err(error) => answer matches Err(text) && text@ == error@,
            Ok(false) => answer matches Ok(Answer::Sentence(text)) && text@ == missing_atom(
                params.atom_id@,
            ),
            Ok(true) => match results {
                Err(error) => answer matches Err(text) && text@ == error@,
                Ok(results) => {
                    &&& answer matches Ok(Answer::Payload(items))
                    &&& items@.len() == results@.len()
                    &&& forall|i: int|
                        0 <= i < items@.len() ==> shows_neighbor(#[trigger] items@[i], results@[i])
                },
            },
        },
{
    match exists_atom {
        Err(error) => {
            return Err(error);
        },
        Ok(false) => {
            return Ok(Answer::Sentence(atom_not_found(params.atom_id.as_str())));
        },
        Ok(true) => {},
    }
    let results = match results {
        Ok(results) => results,
        Err(error) => {
            return Err(error);
        },
    };
    let mut items: Vec<SimilarAtomItem> = Vec::new();
    let mut at: usize = 0;
    while at < results.len()
        invariant
            at <= results.len(),
            items@.len() == at,
            forall|i: int| 0 <= i < at ==> shows_neighbor(#[trigger] items@[i], results@[i]),
        decreases results.len() - at,
    {
        let found = &results[at];
        items.push(
            SimilarAtomItem {
                atom_id: found.id.clone(),
                title: found.title.clone(),
                content_preview: reading::excerpt(found.content.as_str()),
                similarity_score_bits: found.similarity_score_bits,
            },
        );
        at = at + 1;
    }
    Ok(Answer::Payload(items))
}

// ==================== Reading an atom ====================

/// Lines that a read returns at most.
pub const READ_MAX_LINES: i32 = 500;

/// How many lines a read returns: what is asked for, up to the maximum. A
/// negative number asks for the maximum.
pub open spec fn read_limit(limit: Option<i32>) -> int {
    match limit {
        Some(limit) => if 0 <= limit <= READ_MAX_LINES {
            limit as int
        } else {
            READ_MAX_LINES as int
        },
        None => READ_MAX_LINES as int,
    }
}

/// The line that a read starts at.
pub open spec fn read_offset(offset: Option<i32>) -> int {
    clamped(offset, 0, 0, i32::MAX) as int
}

/// Where a read ends, of `total` lines.
pub open spec fn read_end(offset: int, limit: int, total: int) -> int {
    if offset >= total {
        total
    } else {
        reading::window_end(offset, limit, total)
    }
}

/// What a read returns of a content: the lines, and how to read on where there
/// are more.
pub open spec fn read_text(content: Seq<char>, offset: int, limit: int) -> Seq<char> {
    let total = text::lines(content).len() as int;
    let end = read_end(offset, limit, total);
    let body = reading::window_body(content, offset, limit);
    if end < total {
        body + "\n\n(Atom content continues. Use offset "@ + text::decimal(end as nat)
            + " to read more lines.)"@
    } else {
        body
    }
}

/// Reads an atom, some lines at a time.
pub fn read_atom(params: &ReadAtomParams, existing: Result<Option<StoredAtom>, String>) -> (answer:
    Result<Answer<AtomContent>, String>)
    ensures
        match existing {
            Err(error) => answer matches Err(text) && text@ == error@,
            Ok(None) => answer matches Ok(Answer::Sentence(text)) && text@ == missing_atom(
                params.atom_id@,
            ),
            Ok(Some(atom)) => {
                let offset = read_offset(params.offset);
                let limit = read_limit(params.limit);
                let total = text::lines(atom.content@).len() as int;
                let end = read_end(offset, limit, total);
                &&& answer matches Ok(Answer::Payload(shown))
                &&& shown.atom_id@ == atom.id@
                &&& shown.content@ == read_text(atom.content@, offset, limit)
                &&& shown.total_lines == total as i32
                &&& shown.returned_lines == if offset < total {
                    end - offset
                } else {
                    0
                }
                &&& shown.offset == offset
                &&& shown.has_more == (end < total)
                &&& shown.created_at@ == atom.created_at@
                &&& shown.updated_at@ == atom.updated_at@
            },
        },
{
    let atom = match existing {
        Err(error) => {
            return Err(error);
        },
        Ok(None) => {
            return Ok(Answer::Sentence(atom_not_found(params.atom_id.as_str())));
        },
        Ok(Some(atom)) => atom,
    };
    let offset: usize = clamp(params.offset, 0, 0, i32::MAX) as usize;
    let limit: usize = match params.limit {
        Some(limit) => if 0 <= limit && limit <= READ_MAX_LINES {
            limit as usize
        } else {
            READ_MAX_LINES as usize
        },
        None => READ_MAX_LINES as usize,
    };
    let lines = text::split_lines(atom.content.as_str());
    let total: usize = lines.len();
    let start: usize = if offset < total {
        offset
    } else {
        total
    };
    let end: usize = if limit <= total - start {
        start + limit
    } else {
        total
    };
    let mut content = text::join(&lines, start, end, "\n");
    proof {
        let body = reading::window_body(atom.content@, offset as int, limit as int);
        if offset >= total {
            assert(text::texts(lines@).subrange(start as int, end as int) =~= Seq::empty());
        }
        assert(content@ =~= body);
    }
    if end < total {
        content.append("\n\n(Atom content continues. Use offset ");
        text::push_decimal(&mut content, end as u64);
        content.append(" to read more lines.)");
    }
    Ok(
        Answer::Payload(
            AtomContent {
                atom_id: atom.id,
                content,
                total_lines: total as i32,
                returned_lines: (end - start) as i32,
                offset: offset as i32,
                has_more: end < total,
                created_at: atom.created_at,
                updated_at: atom.updated_at,
            },
        ),
    )
}

/// A read never returns more lines than the maximum.
pub proof fn lemma_reads_are_bounded(offset: Option<i32>, limit: Option<i32>, total: int)
    requires
        0 <= total,
    ensures
        ({
            let start = read_offset(offset);
            let end = read_end(start, read_limit(limit), total);
            start < total ==> 0 <= end - start <= READ_MAX_LINES
        }),
{
}

/// Reading on at the offset that an answer names loses no line and repeats
/// none.
pub proof fn lemma_reading_on(content: Seq<char>, offset: int, limit: int, more: int)
    requires
        0 <= offset,
        0 < limit,
        0 < more,
        read_end(offset, limit, text::lines(content).len() as int) < text::lines(content).len(),
    ensures
        ({
            let end = read_end(offset, limit, text::lines(content).len() as int);
            reading::window_body(content, offset, limit + more) == reading::window_body(
                content,
                offset,
                limit,
            ) + "\n"@ + reading::window_body(content, end, more)
        }),
{
    reading::lemma_reading_on_loses_nothing(content, offset, limit, more);
}

pub open spec fn tag_names(tags: Seq<Tag>) -> Seq<Seq<char>> {
    Seq::new(tags.len(), |i: int| tags[i].name@)
}

pub fn names_of(tags: &Vec<Tag>) -> (names: Vec<String>)
    ensures
        text::texts(names@) == tag_names(tags@),
{
    let mut names: Vec<String> = Vec::new();
    let mut at: usize = 0;
    while at < tags.len()
        invariant
            at <= tags.len(),
            names@.len() == at,
            forall|i: int| 0 <= i < at ==> (#[trigger] names@[i])@ == tags@[i].name@,
        decreases tags.len() - at,
    {
        names.push(tags[at].name.clone());
        at = at + 1;
    }
    assert(text::texts(names@) =~= tag_names(tags@));
    names
}

/// Fetches an atom as a document.
pub fn fetch(id: &str, existing: Result<Option<StoredAtom>, String>) -> (answer: Result<
    Answer<FetchResponse>,
    String,
>)
    ensures
        match existing {
            Err(error) => answer matches Err(text) && text@ == error@,
            Ok(None) => answer matches Ok(Answer::Sentence(text)) && text@ == missing_atom(id@),
            Ok(Some(atom)) => {
                &&& answer matches Ok(Answer::Payload(shown))
                &&& shown.id@ == atom.id@
                &&& shown.title@ == atom.title@
                &&& shown.text@ == atom.content@
                &&& text::optional(shown.url) == text::optional(atom.source_url)
                &&& shown.metadata.created_at@ == atom.created_at@
                &&& shown.metadata.updated_at@ == atom.updated_at@
                &&& text::texts(shown.metadata.tags@) == tag_names(atom.tags@)
            },
        },
{
    match existing {
        Err(error) => Err(error),
        Ok(None) => Ok(Answer::Sentence(atom_not_found(id))),
        Ok(Some(atom)) => Ok(
            Answer::Payload(
                FetchResponse {
                    id: atom.id,
                    title: atom.title,
                    text: atom.content,
                    url: atom.source_url,
                    metadata: FetchMetadata {
                        created_at: atom.created_at,
                        updated_at: atom.updated_at,
                        tags: names_of(&atom.tags),
                    },
                },
            ),
        ),
    }
}

// ==================== What answers show ====================

/// A number is kept as it is between its bounds and moved to the nearer one
/// beyond them; where there is none, the default is.
pub proof fn lemma_numbers_are_kept_in_bounds(
    value: Option<i32>,
    otherwise: i32,
    low: i32,
    high: i32,
)
    requires
        low <= high,
    ensures
        low <= clamped(value, otherwise, low, high) <= high,
        value matches Some(value) ==> {
            &&& low <= value <= high ==> clamped(Some(value), otherwise, low, high) == value
            &&& value < low ==> clamped(Some(value), otherwise, low, high) == low
            &&& value > high ==> clamped(Some(value), otherwise, low, high) == high
        },
        value is None && low <= otherwise <= high ==> clamped(value, otherwise, low, high)
            == otherwise,
{
}

/// What reports generated is found only where a client asks for it.
pub proof fn lemma_generated_atoms_are_asked_for(asked: Option<bool>)
    ensures
        kinds_of(asked) == KindFilter::All <==> asked == Some(true),
        kinds_of(asked) == KindFilter::CapturedOnly <==> asked != Some(true),
{
}

/// A search shows each atom under its own id, with its own score and its own
/// chunk, and as much of its content as a preview holds.
pub proof fn lemma_a_hit_is_shown_as_it_is(
    item: SearchResult,
    document: DeepSearchResult,
    neighbor: SimilarAtomItem,
    found: FoundAtom,
)
    ensures
        shows_hit(item, found) <==> {
            &&& item.atom_id@ == found.id@
            &&& item.content_preview@ == reading::excerpt_of(found.content@)
            &&& item.similarity_score_bits == found.similarity_score_bits
            &&& item.matching_chunk@ == found.matching_chunk@
        },
        shows_document(document, found) <==> {
            &&& document.id@ == found.id@
            &&& document.title@ == found.title@
            &&& document.text@ == found.matching_chunk@
            &&& text::optional(document.url) == text::optional(found.source_url)
        },
        shows_neighbor(neighbor, found) <==> {
            &&& neighbor.atom_id@ == found.id@
            &&& neighbor.title@ == found.title@
            &&& neighbor.content_preview@ == reading::excerpt_of(found.content@)
            &&& neighbor.similarity_score_bits == found.similarity_score_bits
        },
{
}

/// A connection works on the database that it selects, and on the active one
/// where it selects none; a listing shows each database under its own id and
/// name.
pub proof fn lemma_a_connection_works_on_what_it_selects(
    selected: String,
    active: Seq<char>,
    item: DatabaseListItem,
    info: DatabaseInfo,
    in_use: Seq<char>,
)
    ensures
        operating_id(Some(DbSelection(Some(selected))), active) == selected@,
        operating_id(Some(DbSelection(None)), active) == active,
        operating_id(None, active) == active,
        selected_id(Some(DbSelection(Some(selected)))) == Some(selected@),
        selected_id(None) is None,
        shows_database(item, info, in_use) <==> {
            &&& item.database_id@ == info.id@
            &&& item.name@ == info.name@
            &&& item.is_default == info.is_default
            &&& item.selected <==> info.id@ == in_use
        },
{
}

/// A read returns the lines that are asked for: from the offset on, which is the
/// first line where none or a negative one is given, and as many as the limit
/// says, which is five hundred where none, a negative or a greater one is given.
/// It says how to read on exactly where lines are left.
pub proof fn lemma_a_read_returns_the_lines_asked_for(
    content: Seq<char>,
    offset: Option<i32>,
    limit: Option<i32>,
)
    ensures
        offset matches Some(given) ==> read_offset(offset) == if given >= 0 {
            given as int
        } else {
            0
        },
        offset is None ==> read_offset(offset) == 0,
        limit matches Some(given) ==> read_limit(limit) == if 0 <= given <= 500 {
            given as int
        } else {
            500
        },
        limit is None ==> read_limit(limit) == 500,
        ({
            let lines = text::lines(content);
            let from = read_offset(offset);
            let to = read_end(from, read_limit(limit), lines.len() as int);
            let shown = read_text(content, from, read_limit(limit));
            &&& to <= lines.len()
            &&& from < lines.len() ==> {
                &&& from <= to <= from + read_limit(limit)
                &&& to < lines.len() ==> to == from + read_limit(limit)
                &&& shown == text::joined(lines.subrange(from, to), "\n"@) + if to < lines.len() {
                    "\n\n(Atom content continues. Use offset "@ + text::decimal(to as nat)
                        + " to read more lines.)"@
                } else {
                    Seq::empty()
                }
            }
            &&& from >= lines.len() ==> shown.len() == 0
        }),
{
    let lines = text::lines(content);
    let from = read_offset(offset);
    let to = read_end(from, read_limit(limit), lines.len() as int);
    if from < lines.len() && to == lines.len() {
        let body = text::joined(lines.subrange(from, to), "\n"@);
        assert(body + Seq::<char>::empty() =~= body);
    }
}

/// The names of tags are shown one by one, in order.
pub proof fn lemma_every_tag_is_named(tags: Seq<Tag>, i: int)
    ensures
        tag_names(tags).len() == tags.len(),
        0 <= i < tags.len() ==> tag_names(tags)[i] == tags[i].name@,
{
}

} // verus!
