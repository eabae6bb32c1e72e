//! The bodies of the conversation endpoints, and how they are answered.

use crate::chat_tools::changes::PageContext;
use crate::json;
use crate::json::Json;
use crate::json::JsonTree;
use crate::text;
use vstd::prelude::*;

verus! {

/// A conversation to start.
#[derive(Debug, PartialEq)]
pub struct CreateConversationBody {
    /// The tags that the conversation is scoped to.
    pub tag_ids: Vec<String>,
    pub title: Option<String>,
}

/// Which conversations to list.
#[derive(Debug, PartialEq)]
pub struct GetConversationsQuery {
    /// Only those scoped to this tag.
    pub filter_tag_id: Option<String>,
    /// How many at most; 50 where it is not said.
    pub limit: Option<i32>,
    pub offset: Option<i32>,
    /// Whether archived ones are listed too; not where it is not said.
    pub include_archived: Option<bool>,
}

/// A change to a conversation.
#[derive(Debug, PartialEq)]
pub struct UpdateConversationBody {
    pub title: Option<String>,
    /// Archives the conversation, or brings it back.
    pub is_archived: Option<bool>,
}

/// The part that a tag plays in a conversation's scope.
#[derive(Debug, Clone, Copy, PartialEq, Eq, Structural)]
pub enum ScopeMode {
    Include,
    Require,
    Exclude,
}

impl Default for ScopeMode {
    fn default() -> (mode: ScopeMode)
        ensures
            mode == ScopeMode::Include,
    {
        ScopeMode::Include
    }
}

/// A tag in a conversation's scope.
#[derive(Debug, PartialEq)]
pub struct ScopeEntry {
    pub tag_id: String,
    pub mode: ScopeMode,
}

/// The scope of a conversation.
#[derive(Debug, PartialEq)]
pub struct SetScopeBody {
    pub tag_ids: Vec<ScopeEntry>,
}

/// A tag to add to a conversation's scope. One that is in it already gets the
/// new mode.
#[derive(Debug, PartialEq)]
pub struct AddTagBody {
    pub tag_id: String,
    pub mode: ScopeMode,
}

/// A message to send.
#[derive(Debug, PartialEq)]
pub struct SendMessageBody {
    pub content: String,
    /// What the canvas shows, for the tools that move it.
    pub canvas_context: Option<Json>,
    /// What the user is looking at, for the tool that looks at it.
    pub page_context: Option<PageContext>,
}

/// The conversations that are listed.
#[derive(Debug, PartialEq)]
pub struct ConversationsPage {
    pub filter_tag_id: Option<String>,
    pub limit: i32,
    pub offset: i32,
    pub archived_too: bool,
}

/// The conversations that a query asks for.
pub fn conversations_page(query: &GetConversationsQuery) -> (page: ConversationsPage)
    ensures
        text::optional(page.filter_tag_id) == text::optional(query.filter_tag_id),
        page.limit == (match query.limit {
            Some(limit) => limit,
            None => 50,
        }),
        page.offset == (match query.offset {
            Some(offset) => offset,
            None => 0,
        }),
        page.archived_too == (query.include_archived == Some(true)),
{
    ConversationsPage {
        filter_tag_id: text::copy_optional(&query.filter_tag_id),
        limit: match query.limit {
            Some(limit) => limit,
            None => 50,
        },
        offset: match query.offset {
            Some(offset) => offset,
            None => 0,
        },
        archived_too: match query.include_archived {
            Some(archived) => archived,
            None => false,
        },
    }
}

/// How a request is answered that did not fail.
#[derive(Debug, PartialEq)]
pub enum Reply<T> {
    /// A status, and a payload.
    Found(u16, T),
    /// A status, and what is said.
    Said(u16, Json),
}

/// What is said where something is not there.
pub open spec fn error_json(message: Seq<char>) -> JsonTree {
    JsonTree::Object(Map::<Seq<char>, JsonTree>::empty().insert("error"@, JsonTree::Text(message)))
}

/// Answers with a conversation that was started.
pub fn created<T, E>(result: Result<T, E>) -> (reply: Result<Reply<T>, E>)
    ensures
        match result {
            Ok(conversation) => reply == Ok::<_, E>(Reply::Found(201, conversation)),
            Err(error) => reply == Err::<Reply<T>, _>(error),
        },
{
    match result {
        Ok(conversation) => Ok(Reply::Found(201, conversation)),
        Err(error) => Err(error),
    }
}

/// Answers with a conversation, or says that there is none.
pub fn conversation_reply<T, E>(result: Result<Option<T>, E>) -> (reply: Result<Reply<T>, E>)
    ensures
        match result {
            Ok(Some(conversation)) => reply == Ok::<_, E>(Reply::Found(200, conversation)),
            Ok(None) => reply matches Ok(Reply::Said(status, json)) && status == 404 && json@
                == error_json("Conversation not found"@),
            Err(error) => reply == Err::<Reply<T>, _>(error),
        },
{
    match result {
        Ok(Some(conversation)) => Ok(Reply::Found(200, conversation)),
        Ok(None) => {
            let mut fields: Vec<(String, Json)> = Vec::new();
            json::put(&mut fields, "error", json::string("Conversation not found"));
            Ok(Reply::Said(404, Json::Object(fields)))
        },
        Err(error) => Err(error),
    }
}

impl SendMessageBody {
    /// Whether the turn knows what the user sees, so that it gets the tools
    /// that act on it.
    pub fn has_context(&self) -> (yes: bool)
        ensures
            yes == (self.canvas_context is Some || self.page_context is Some),
    {
        self.canvas_context.is_some() || self.page_context.is_some()
    }
}

/// How a turn that failed shows on the event stream, beside the answer to the
/// request: the client may never read that.
#[derive(Debug, PartialEq)]
pub struct ChatError {
    pub conversation_id: String,
    pub error: String,
}

pub fn turn_failed(conversation_id: &str, error: &str) -> (event: ChatError)
    ensures
        event.conversation_id@ == conversation_id@,
        event.error@ == error@,
{
    ChatError { conversation_id: conversation_id.to_owned(), error: error.to_owned() }
}

/// Answers a request to stop a turn. It is accepted whether or not there was
/// one; what is said tells which.
pub fn cancel_reply(signalled: bool) -> (reply: (u16, Json))
    ensures
        reply.0 == 202,
        reply.1@ == JsonTree::Object(
            Map::<Seq<char>, JsonTree>::empty().insert("cancelled"@, JsonTree::Bool(signalled)),
        ),
{
    let mut fields: Vec<(String, Json)> = Vec::new();
    json::put(&mut fields, "cancelled", Json::Bool(signalled));
    (202, Json::Object(fields))
}

/// What is not there is told under `error`, in the words given.
pub proof fn lemma_an_error_is_told_under_its_key(message: Seq<char>)
    ensures
        error_json(message).text_field("error"@) == Some(message),
{
}

} // verus!
