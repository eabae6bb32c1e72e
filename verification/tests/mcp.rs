use std::sync::Arc;

use atomic_core::chat_tools::lookup::StoredAtom;
use atomic_core::chat_tools::scope::Tag;
use atomic_core::chat_tools::scope::TagWithCount;
use atomic_core::mcp::browse;
use atomic_core::mcp::catalog::find_tool;
use atomic_core::mcp::catalog::tools;
use atomic_core::mcp::catalog::McpTool;
use atomic_core::mcp::reads;
use atomic_core::mcp::reads::Answer;
use atomic_core::mcp::reads::AtomicMcpServer;
use atomic_core::mcp::reads::DbSelection;
use atomic_core::mcp::reads::KindFilter;
use atomic_core::mcp::reads::RequestManager;
use atomic_core::mcp::types::CreateAtomParams;
use atomic_core::mcp::types::DeepSearchParams;
use atomic_core::mcp::types::EditOperation;
use atomic_core::mcp::types::FindSimilarParams;
use atomic_core::mcp::types::GetReportFindingsParams;
use atomic_core::mcp::types::GetWikiParams;
use atomic_core::mcp::types::ListAtomsToolParams;
use atomic_core::mcp::types::ListTagsParams;
use atomic_core::mcp::types::ReadAtomParams;
use atomic_core::mcp::types::SemanticSearchParams;
use atomic_core::mcp::types::UpdateAtomParams;
use atomic_core::mcp::writes;

fn s(text: &str) -> String {
    text.to_string()
}

fn atom(content: &str) -> StoredAtom {
    StoredAtom {
        id: s("a1"),
        title: s("Title"),
        snippet: s("Snippet"),
        content: s(content),
        source_url: Some(s("https://x")),
        published_at: Some(s("2020")),
        created_at: s("c"),
        updated_at: s("u"),
        is_report: false,
        tags: vec![Tag { id: s("t1"), name: s("Topic") }],
    }
}

fn payload<T>(answer: Result<Answer<T>, String>) -> T {
    match answer {
        Ok(Answer::Payload(payload)) => payload,
        Ok(Answer::Sentence(text)) => panic!("{text}"),
        Err(error) => panic!("{error}"),
    }
}

fn sentence<T>(answer: Result<Answer<T>, String>) -> String {
    match answer {
        Ok(Answer::Sentence(text)) => text,
        _ => panic!("no sentence"),
    }
}

#[test]
fn mcp_tools_list_pins_tool_surface_sqlite() {
    const READ_ONLY: &[&str] = &[
        "semantic_search",
        "read_atom",
        "find_similar",
        "list_tags",
        "list_atoms",
        "list_databases",
        "list_wikis",
        "get_wiki",
        "list_reports",
        "get_report_findings",
        "search",
        "fetch",
    ];
    const WRITE: &[&str] = &["create_atom", "ingest_url", "update_atom", "edit_atom"];

    let tools = tools();
    let by_name: std::collections::HashMap<&str, McpTool> =
        tools.iter().map(|tool| (tool.name(), *tool)).collect();
    assert_eq!(by_name.len(), tools.len(), "duplicate tool names");
    for name in READ_ONLY.iter().chain(WRITE) {
        assert!(!by_name[name].title().is_empty(), "{name} missing annotation title");
        assert!(!by_name[name].description().is_empty(), "{name} missing description");
        assert_eq!(find_tool(name), Some(by_name[name]));
    }
    for name in READ_ONLY {
        assert!(by_name[name].annotations().read_only, "{name} should be annotated read-only");
    }
    for name in WRITE {
        assert!(!by_name[name].annotations().read_only, "{name} should be a write tool");
        assert!(
            by_name[name].annotations().destructive.is_some(),
            "{name} must declare whether it is destructive"
        );
    }
    assert_eq!(tools.len(), READ_ONLY.len() + WRITE.len());
    assert_eq!(find_tool("drop_table"), None);
}

#[test]
fn a_search_is_captured_only_and_capped() {
    let params = |limit, generated| SemanticSearchParams {
        query: s("q"),
        limit,
        since_days: Some(7),
        tag_id: Some(s("t")),
        include_generated: generated,
    };
    let options = reads::semantic_search_options(params(None, None));
    assert_eq!((options.limit, options.kinds), (10, KindFilter::CapturedOnly));
    assert_eq!((options.since_days, options.scope), (Some(7), vec![s("t")]));
    let options = reads::semantic_search_options(params(Some(99), Some(true)));
    assert_eq!((options.limit, options.kinds), (50, KindFilter::All));
    assert_eq!(reads::semantic_search_options(params(Some(-4), Some(false))).limit, -4);
    let deep = reads::deep_search_options(DeepSearchParams { query: s("q") });
    assert_eq!((deep.limit, deep.kinds), (10, KindFilter::CapturedOnly));
    assert!(deep.scope.is_empty());
}

#[test]
fn results_show_a_preview_of_two_hundred_characters() {
    let found = vec![reads::FoundAtom {
        id: s("a"),
        title: s("T"),
        content: "ü".repeat(300),
        source_url: None,
        similarity_score_bits: 0.5f32.to_bits(),
        matching_chunk: s("chunk"),
    }];
    let shown = reads::search_results(&found);
    assert_eq!(shown[0].content_preview, "ü".repeat(200));
    assert_eq!(shown[0].similarity_score_bits, 0.5f32.to_bits());
    let documents = reads::deep_search_results(&found);
    assert_eq!(documents.results[0].text, "chunk");
    assert_eq!(documents.results[0].url, None);
    let params = FindSimilarParams { atom_id: s("a"), limit: Some(0) };
    assert_eq!(reads::similar_limit(&params), 1);
    assert_eq!(
        sentence(reads::find_similar(&params, Ok(false), Ok(vec![]))),
        "Atom not found: a"
    );
    let similar = payload(reads::find_similar(&params, Ok(true), Ok(found)));
    assert_eq!(similar[0].title, "T");
    assert_eq!(
        reads::find_similar(&params, Ok(true), Err(s("db"))).unwrap_err(),
        "db"
    );
}

#[test]
fn a_long_atom_is_read_some_lines_at_a_time() {
    let content: String = (0..1200).map(|n| format!("line {n}\n")).collect();
    let read = |limit, offset| {
        payload(reads::read_atom(
            &ReadAtomParams { atom_id: s("a1"), limit, offset },
            Ok(Some(atom(&content))),
        ))
    };
    let first = read(None, None);
    assert_eq!((first.total_lines, first.returned_lines, first.has_more), (1200, 500, true));
    assert!(first.content.starts_with("line 0\nline 1\n"));
    assert!(first
        .content
        .ends_with("line 499\n\n(Atom content continues. Use offset 500 to read more lines.)"));
    let last = read(Some(300), Some(1000));
    assert_eq!((last.returned_lines, last.offset, last.has_more), (200, 1000, false));
    assert!(last.content.ends_with("line 1199"));
    // Whatever is asked for, a read is bounded.
    assert_eq!(read(Some(9999), None).returned_lines, 500);
    assert_eq!(read(Some(-1), Some(-5)).returned_lines, 500);
    assert_eq!(read(Some(0), Some(3)).returned_lines, 0);
    let past = read(None, Some(5000));
    assert_eq!((past.returned_lines, past.content.as_str(), past.has_more), (0, "", false));
    let missing = ReadAtomParams { atom_id: s("nope"), limit: None, offset: None };
    assert_eq!(sentence(reads::read_atom(&missing, Ok(None))), "Atom not found: nope");
    assert_eq!(reads::read_atom(&missing, Err(s("db"))).unwrap_err(), "db");
}

#[test]
fn a_document_carries_its_tags() {
    let document = payload(reads::fetch("a1", Ok(Some(atom("body")))));
    assert_eq!(document.text, "body");
    assert_eq!(document.metadata.tags, vec![s("Topic")]);
    assert_eq!(sentence(reads::fetch("zz", Ok(None))), "Atom not found: zz");
}

#[test]
fn a_request_resolves_against_its_own_manager_and_database() {
    let server = AtomicMcpServer::new(Arc::new(1));
    assert_eq!(**server.request_manager(None), 1);
    let own = RequestManager(Arc::new(2));
    assert_eq!(**server.request_manager(Some(&own)), 2);

    let selected = Some(DbSelection(Some(s("d2"))));
    let unselected = Some(DbSelection(None));
    assert_eq!(reads::database_to_open(&selected), Some(s("d2")));
    assert_eq!(reads::database_to_open(&unselected), None);
    assert_eq!(reads::database_failure(&selected, "gone"), "Database not found: gone");
    assert_eq!(reads::database_failure(&None, "gone"), "gone");

    let databases = || {
        Ok((
            vec![
                reads::DatabaseInfo { id: s("d1"), name: s("One"), is_default: true },
                reads::DatabaseInfo { id: s("d2"), name: s("Two"), is_default: false },
            ],
            s("d1"),
        ))
    };
    let marks = |selection| {
        reads::list_databases(databases(), selection)
            .unwrap()
            .iter()
            .map(|item| item.selected)
            .collect::<Vec<bool>>()
    };
    assert_eq!(marks(&selected), vec![false, true]);
    assert_eq!(marks(&unselected), vec![true, false]);
}

fn tree() -> Vec<TagWithCount> {
    let leaf = |id: &str, name: &str| TagWithCount {
        tag: Tag { id: s(id), name: s(name) },
        atom_count: 3,
        children_total: 0,
        children: vec![],
    };
    vec![TagWithCount {
        tag: Tag { id: s("t1"), name: s("Topics") },
        atom_count: 5,
        children_total: 1,
        children: vec![leaf("t2", "Rust")],
    }]
}

#[test]
fn the_tag_tree_keeps_its_shape() {
    assert_eq!(browse::least_count(&ListTagsParams { min_count: Some(-2) }), 0);
    let shown = browse::tag_tree(&tree());
    assert_eq!(shown.len(), 1);
    assert_eq!((shown[0].name.as_str(), shown[0].atom_count), ("Topics", 5));
    assert_eq!(shown[0].children[0].tag_id, "t2");
    assert!(shown[0].children[0].children.is_empty());
}

#[test]
fn a_page_of_atoms_knows_whether_there_are_more() {
    let request = browse::list_atoms_request(ListAtomsToolParams {
        tag_id: None,
        limit: Some(1000),
        offset: Some(-1),
        include_generated: None,
    });
    assert_eq!((request.limit, request.offset), (100, 0));
    assert_eq!(request.sort_by, browse::SortField::Updated);
    assert_eq!(request.sort_order, browse::SortOrder::Desc);
    assert_eq!(request.source, None);
    let page = vec![browse::AtomSummary {
        id: s("a"),
        title: s("T"),
        snippet: s("S"),
        tags: vec![Tag { id: s("t"), name: s("N") }],
        source_url: None,
        created_at: s("c"),
        updated_at: s("u"),
    }];
    assert!(browse::list_atoms(0, &page, 2).has_more);
    assert!(!browse::list_atoms(1, &page, 2).has_more);
    assert!(!browse::list_atoms(i32::MAX, &page, i32::MAX).has_more);
    assert_eq!(browse::list_atoms(0, &page, 1).atoms[0].tags, vec![s("N")]);
}

#[test]
fn a_wiki_is_found_by_id_or_by_name_whatever_its_case() {
    let tags = tree();
    let find = |tag: &str| browse::wiki_tag(&GetWikiParams { tag: s(tag) }, &tags).map(|t| t.tag.id.clone());
    assert_eq!(find("t2"), Ok(s("t2")));
    assert_eq!(find("RUST"), Ok(s("t2")));
    assert_eq!(
        find("Rus"),
        Err(s("Tag not found: Rus (use list_tags to see available tags)"))
    );
    assert_eq!(
        sentence(browse::get_wiki("Rust", Ok(None))),
        "No wiki article exists for tag 'Rust' yet. Wiki articles are generated in the Atomic app; atoms under the tag can still be browsed with list_atoms or semantic_search."
    );
    let wiki = payload(browse::get_wiki(
        "Rust",
        Ok(Some(browse::WikiWithCitations {
            tag_id: s("t2"),
            content: s("Body [1]"),
            atom_count: 3,
            updated_at: s("u"),
            citations: vec![browse::WikiCitation {
                citation_index: 1,
                atom_id: s("a"),
                excerpt: s("e"),
                source_url: None,
            }],
        })),
    ));
    assert_eq!((wiki.tag_name.as_str(), wiki.citations.len()), ("Rust", 1));
}

#[test]
fn findings_come_with_their_citations_or_not_at_all() {
    let params = GetReportFindingsParams { report_id: s("r"), limit: Some(50) };
    assert_eq!(browse::findings_limit(&params), 10);
    assert_eq!(
        sentence(browse::get_report_findings(&params, Ok(false), Ok(vec![]))),
        "Report not found: r (use list_reports to see available reports)"
    );
    let finding = |citations| browse::FetchedFinding {
        report_name: s("Weekly"),
        created_at: s("c"),
        atom: atom("finding"),
        citations,
    };
    let good = || {
        finding(Ok(vec![browse::FindingCitation {
            position: 1,
            cited_atom_id: s("a"),
            excerpt: s("e"),
        }]))
    };
    let shown = payload(browse::get_report_findings(&params, Ok(true), Ok(vec![good()])));
    assert_eq!((shown[0].report_name.as_str(), shown[0].citations[0].position), ("Weekly", 1));
    let failed = browse::get_report_findings(
        &params,
        Ok(true),
        Ok(vec![good(), finding(Err(s("first"))), finding(Err(s("second")))]),
    );
    assert_eq!(failed.unwrap_err(), "first");
}

#[test]
fn an_update_keeps_what_it_does_not_name() {
    let params = |content: Option<&str>, url: Option<&str>, tags| UpdateAtomParams {
        atom_id: s("a1"),
        content: content.map(s),
        source_url: url.map(s),
        published_at: None,
        tag_ids: tags,
    };
    let kept = payload(writes::update_request(
        params(None, Some("https://y"), Some(vec![])),
        Ok(Some(atom("body"))),
    ));
    assert_eq!(kept.expected_updated_at, atom("body").updated_at);
    assert!(!kept.expected_updated_at.is_empty());
    let kept = kept.request;
    assert_eq!(kept.content, "body");
    assert_eq!(kept.source_url, Some(s("https://y")));
    assert_eq!(kept.published_at, Some(s("2020")));
    assert_eq!(kept.tag_ids, Some(vec![]));
    assert_eq!(
        sentence(writes::update_request(params(None, None, None), Ok(Some(atom("body"))))),
        "No update fields provided"
    );
    assert_eq!(
        sentence(writes::update_request(params(Some(" \n"), None, None), Ok(Some(atom("body"))))),
        "Cannot update an atom to empty content"
    );
    assert_eq!(
        sentence(writes::update_request(params(Some("x"), None, None), Ok(None))),
        "Atom not found: a1"
    );
}

#[test]
fn an_edit_that_changes_nothing_is_not_saved() {
    let existing = atom("body");
    let planned = |edited: Result<&str, &str>| {
        writes::edit_request(&existing, edited.map(s).map_err(s))
    };
    assert_eq!(planned(Err("no match")), Answer::Sentence(s("no match")));
    assert_eq!(planned(Ok("body")), Answer::Sentence(s("Edits did not change the atom content")));
    assert_eq!(planned(Ok("  ")), Answer::Sentence(s("Cannot update an atom to empty content")));
    match planned(Ok("new")) {
        Answer::Payload(update) => {
            assert_eq!(update.request.content, "new");
            assert_eq!(update.request.tag_ids, None);
            assert_eq!(update.expected_updated_at, existing.updated_at);
        }
        other => panic!("{other:?}"),
    }
    let edits = writes::edit_operations(&vec![EditOperation {
        operation: s("replace"),
        old_text: Some(s("a")),
        new_text: Some(s("b")),
        anchor_text: None,
        text: None,
        content: None,
    }]);
    assert_eq!((edits[0].operation.as_str(), edits[0].new_text.as_deref()), ("replace", Some("b")));
}

#[test]
fn what_was_saved_is_shown() {
    let request = writes::create_request(CreateAtomParams { content: s("c"), source_url: None });
    assert!(request.tag_ids.is_empty() && !request.skip_if_source_exists);
    let saved = || writes::SavedAtom { atom: atom("body"), embedding_status: s("pending") };
    let shown = writes::created(Ok(Some(saved()))).unwrap();
    assert_eq!((shown.atom_id.as_str(), shown.embedding_status.as_str()), ("a1", "pending"));
    assert_eq!(writes::created(Ok(None)).unwrap_err(), "Atom creation returned None");
    assert_eq!(writes::saved_or_error(Err(s("conflict"))).unwrap_err(), "conflict");
}

#[test]
fn a_page_that_is_stored_is_not_fetched_again() {
    let known = writes::already_ingested("https://x", Ok(Some(atom("äöü")))).unwrap().unwrap();
    assert!(known.already_exists);
    assert_eq!((known.atom_id.as_str(), known.content_length), ("a1", 6));
    assert_eq!(writes::already_ingested("https://z", Ok(None)), Ok(None));
    let fresh = writes::ingested(Ok(writes::IngestionResult {
        atom_id: s("n"),
        url: s("https://z"),
        title: s("Z"),
        content_length: 9,
    }))
    .unwrap();
    assert!(!fresh.already_exists);
}
