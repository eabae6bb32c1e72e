use atomic_core::json::Json;
use atomic_core::routes::chat::cancel_reply;
use atomic_core::routes::chat::conversation_reply;
use atomic_core::routes::chat::conversations_page;
use atomic_core::routes::chat::created;
use atomic_core::routes::chat::turn_failed;
use atomic_core::routes::chat::GetConversationsQuery;
use atomic_core::routes::chat::Reply;
use atomic_core::routes::chat::ScopeMode;
use atomic_core::routes::chat::SendMessageBody;
use atomic_core::routes::turns::TurnRegistry;

/// Asks for a turn to stop; the answer is always accepted. What comes back is
/// the turn that was reached.
fn cancelled(registry: &TurnRegistry, scope: Option<&str>, conversation: &str) -> Option<u64> {
    let signalled = registry.cancel(scope, conversation);
    let (status, body) = cancel_reply(signalled.is_some());
    assert_eq!(status, 202, "cancelling is always accepted");
    let flag = body.get("cancelled").and_then(|value| value.as_bool());
    assert_eq!(flag, Some(signalled.is_some()));
    signalled
}

#[test]
fn a_foreign_scope_cannot_cancel_a_turn_it_did_not_start() {
    let mut registry = TurnRegistry::new();
    let turn = registry.begin(Some("tenant-b"), "shared-id").turn;
    assert_eq!(
        cancelled(&registry, Some("tenant-a"), "shared-id"),
        None,
        "a foreign scope must find nothing to cancel"
    );
    assert_eq!(cancelled(&registry, Some("tenant-b"), "shared-id"), Some(turn));
}

#[test]
fn the_absent_scope_is_a_scope_of_its_own() {
    let mut registry = TurnRegistry::new();
    let scoped = registry.begin(Some("tenant-b"), "c1").turn;
    let unscoped = registry.begin(None, "c2").turn;
    assert_eq!(cancelled(&registry, None, "c1"), None);
    assert_eq!(cancelled(&registry, Some("tenant-b"), "c2"), None);
    // Each still reaches its own.
    assert_eq!(cancelled(&registry, None, "c2"), Some(unscoped));
    assert_eq!(cancelled(&registry, Some("tenant-b"), "c1"), Some(scoped));
}

#[test]
fn cancelling_nothing_is_accepted() {
    assert_eq!(cancelled(&TurnRegistry::new(), None, "never-existed"), None);
}

#[test]
fn a_finished_turn_deregisters_and_a_superseding_turn_owns_the_entry() {
    let mut registry = TurnRegistry::new();
    let turn = registry.begin(None, "c1").turn;
    assert_eq!(registry.cancel(None, "c1"), Some(turn), "a live turn is cancellable");
    registry.finish(turn);
    assert_eq!(registry.cancel(None, "c1"), None, "a finished turn leaves nothing behind");

    // A retry racing its predecessor: the second registration wins, and the
    // first one ending must not take it with it.
    let first = registry.begin(None, "c2").turn;
    let second = registry.begin(None, "c2").turn;
    registry.finish(first);
    assert_eq!(
        registry.cancel(None, "c2"),
        Some(second),
        "the superseding turn is still registered"
    );
}

#[test]
fn a_superseded_turn_is_cancelled_by_the_one_replacing_it() {
    let mut registry = TurnRegistry::new();
    let first = registry.begin(None, "c1");
    assert_eq!(first.displaced, None);
    let second = registry.begin(None, "c1");
    assert_eq!(second.displaced, Some(first.turn), "the displaced turn is told to stop");

    // Tenancy still holds: a turn in another scope keys separately and is
    // untouched by a same-id registration here.
    let other = registry.begin(Some("tenant-a"), "c1");
    assert_eq!(other.displaced, None);
    let third = registry.begin(None, "c1");
    assert_eq!(
        third.displaced,
        Some(second.turn),
        "another tenant's turn on the same conversation id is not displaced"
    );
    assert_eq!(registry.cancel(Some("tenant-a"), "c1"), Some(other.turn));
}

#[test]
fn a_query_without_bounds_gets_the_defaults() {
    let page = conversations_page(&GetConversationsQuery {
        filter_tag_id: None,
        limit: None,
        offset: None,
        include_archived: None,
    });
    assert_eq!((page.limit, page.offset, page.archived_too), (50, 0, false));
    let page = conversations_page(&GetConversationsQuery {
        filter_tag_id: Some("t".to_string()),
        limit: Some(5),
        offset: Some(10),
        include_archived: Some(true),
    });
    assert_eq!((page.limit, page.offset, page.archived_too), (5, 10, true));
    assert_eq!(page.filter_tag_id.as_deref(), Some("t"));
}

#[test]
fn a_conversation_that_is_missing_is_said_to_be() {
    let found: Result<Reply<u8>, String> = conversation_reply(Ok(Some(7)));
    assert_eq!(found, Ok(Reply::Found(200, 7)));
    let missing: Result<Reply<u8>, String> = conversation_reply(Ok(None));
    match missing {
        Ok(Reply::Said(404, body)) => {
            assert_eq!(body.get_str("error"), Some("Conversation not found"));
        }
        other => panic!("{other:?}"),
    }
    let failed: Result<Reply<u8>, String> = conversation_reply(Err("db".to_string()));
    assert_eq!(failed, Err("db".to_string()));
    let made: Result<Reply<u8>, String> = created(Ok(1));
    assert_eq!(made, Ok(Reply::Found(201, 1)));
}

#[test]
fn either_context_makes_a_turn_aware_of_the_page() {
    let mut body = SendMessageBody {
        content: "hi".to_string(),
        canvas_context: None,
        page_context: None,
    };
    assert!(!body.has_context());
    body.canvas_context = Some(Json::Null);
    assert!(body.has_context());
    assert_eq!(ScopeMode::default(), ScopeMode::Include);
    let event = turn_failed("c1", "boom");
    assert_eq!((event.conversation_id.as_str(), event.error.as_str()), ("c1", "boom"));
}
