use atomic_core::agent_runtime::citations::CitationAdmission;
use atomic_core::agent_runtime::citations::CitationLedger;
use atomic_core::agent_runtime::citations::CitationSource;
use atomic_core::chat_tools::changes;
use atomic_core::chat_tools::changes::CanvasAction;
use atomic_core::chat_tools::changes::PageContext;
use atomic_core::chat_tools::definitions::into_registry;
use atomic_core::chat_tools::definitions::ChatTool;
use atomic_core::chat_tools::lookup;
use atomic_core::chat_tools::lookup::LatestFinding;
use atomic_core::chat_tools::lookup::Report;
use atomic_core::chat_tools::lookup::SearchHit;
use atomic_core::chat_tools::lookup::StoredAtom;
use atomic_core::chat_tools::lookup::WikiArticle;
use atomic_core::chat_tools::reading;
use atomic_core::chat_tools::scope::resolve_tag;
use atomic_core::chat_tools::scope::ScopeFilter;
use atomic_core::chat_tools::scope::Tag;
use atomic_core::chat_tools::scope::TagScope;
use atomic_core::chat_tools::scope::TagWithCount;
use atomic_core::json;
use atomic_core::json::Json;

fn s(text: &str) -> String {
    text.to_string()
}

fn args(text: &str) -> Json {
    json::parse(text).expect("JSON")
}

fn open() -> CitationLedger {
    CitationLedger::new(CitationAdmission::Open)
}

fn tag(id: &str, name: &str, children: Vec<TagWithCount>) -> TagWithCount {
    TagWithCount {
        tag: Tag { id: s(id), name: s(name) },
        atom_count: 2,
        children_total: children.len() as i32,
        children,
    }
}

fn tree() -> Vec<TagWithCount> {
    vec![
        tag("work", "Work", vec![tag("rust", "Rust", vec![tag("async", "Async", vec![])])]),
        tag("home", "Home", vec![]),
    ]
}

fn scope(included: &[&str], required: &[&str], excluded: &[&str]) -> ScopeFilter {
    let list = |ids: &[&str]| ids.iter().map(|id| s(id)).collect();
    ScopeFilter { included: list(included), required: list(required), excluded: list(excluded) }
}

fn names(nodes: &[TagWithCount]) -> Vec<String> {
    nodes
        .iter()
        .flat_map(|node| {
            let mut all = vec![node.tag.name.clone()];
            all.extend(names(&node.children));
            all
        })
        .collect()
}

#[test]
fn an_include_scope_leaves_the_branch_and_the_way_to_it() {
    let tree = tree();
    let filter = scope(&["rust"], &[], &[]);
    let tags = TagScope::resolve(&tree, &filter);
    assert!(tags.readable("rust") && tags.readable("async"));
    assert!(!tags.readable("work"), "an ancestor covers more than the scope");
    assert!(tags.listable("work"), "but it may be named, to reach what is below");
    assert!(!tags.listable("home"));
    assert_eq!(names(&tags.prune(&tree)), vec!["Work", "Rust", "Async"]);
}

#[test]
fn an_excluded_branch_is_closed_to_its_leaves() {
    let tree = tree();
    let filter = scope(&[], &[], &["rust"]);
    let tags = TagScope::resolve(&tree, &filter);
    assert!(!tags.readable("rust") && !tags.readable("async"));
    assert!(tags.readable("home"));
    assert_eq!(names(&tags.prune(&tree)), vec!["Work", "Home"]);
    let none = scope(&[], &[], &[]);
    assert!(none.is_empty());
    let tags = TagScope::resolve(&tree, &none);
    assert_eq!(names(&tags.prune(&tree)).len(), 4);
}

#[test]
fn reading_and_naming_go_by_what_stands_over_and_under_a_tag() {
    let tree = tree();
    let required = scope(&[], &["work"], &[]);
    let tags = TagScope::resolve(&tree, &required);
    for id in ["work", "rust", "async"] {
        assert!(tags.readable(id) && tags.listable(id), "{id}");
    }
    assert!(!tags.readable("home") && tags.listable("home"));
    assert!(!tags.readable("zzz") && !tags.listable("zzz"));

    let mixed = scope(&["async", "home"], &["work"], &[]);
    let tags = TagScope::resolve(&tree, &mixed);
    assert!(tags.readable("async") && tags.listable("async"));
    for id in ["work", "rust", "home"] {
        assert!(!tags.readable(id) && tags.listable(id), "{id}");
    }

    let nested = scope(&["work"], &[], &["rust"]);
    let tags = TagScope::resolve(&tree, &nested);
    assert!(tags.readable("work") && tags.listable("work"));
    for id in ["rust", "async", "home"] {
        assert!(!tags.readable(id) && !tags.listable(id), "{id}");
    }
}

#[test]
fn a_scope_admits_by_covering_tags() {
    let filter = scope(&["a", "b"], &["c"], &["d"]);
    let admits = |ids: &[&str]| filter.admitted(&ids.iter().map(|id| s(id)).collect());
    assert!(admits(&["a", "c"]));
    assert!(!admits(&["a"]), "what is required is missing");
    assert!(!admits(&["c"]), "nothing is included");
    assert!(!admits(&["b", "c", "d"]), "what is excluded counts");
}

#[test]
fn a_tag_is_found_by_id_then_name_then_any_case() {
    let tree = vec![tag("x", "rust", vec![]), tag("rust", "Other", vec![]), tag("y", "RUST", vec![])];
    let found = |needle: &str| resolve_tag(&tree, needle).map(|node| node.tag.id.clone());
    assert_eq!(found("rust"), Some(s("rust")));
    assert_eq!(found("RUST"), Some(s("y")));
    assert_eq!(found("Rust"), Some(s("x")));
    assert_eq!(found("rus"), None);
}

#[test]
fn a_listing_shows_two_levels_with_counts_and_ids() {
    let result = lookup::list_tags(&args("{}"), Ok(tree()), &scope(&[], &[], &[]));
    assert_eq!(
        result.output,
        "Tags (counts include sub-tags):\n  Work (2 atoms, tag_id: work)\n    Rust (2 atoms, tag_id: rust)\n      (1 sub-tags — call list_tags with parent_id \"rust\")\n  Home (2 atoms, tag_id: home)"
    );
    assert_eq!((result.results_count, result.failed), (3, false));
    let branch = lookup::list_tags(&args(r#"{"parent_id":"RUST"}"#), Ok(tree()), &scope(&[], &[], &[]));
    assert!(branch.output.starts_with("Sub-tags of Rust (counts include sub-tags):"), "{}", branch.output);
    assert!(branch.output.contains("Async (2 atoms, tag_id: async)"));
    let closed = lookup::list_tags(&args(r#"{"parent_id":"home"}"#), Ok(tree()), &scope(&["rust"], &[], &[]));
    assert!(closed.output.contains("outside this conversation's scope"), "{}", closed.output);
    let unknown = lookup::list_tags(&args(r#"{"parent_id":"zzz"}"#), Ok(tree()), &scope(&[], &[], &[]));
    assert!(unknown.output.starts_with("No tag matches 'zzz'."), "{}", unknown.output);
    let empty = lookup::list_tags(&args("{}"), Ok(vec![]), &scope(&[], &[], &[]));
    assert_eq!(empty.output, "This knowledge base has no tags yet.");
    assert!(lookup::list_tags(&args("{}"), Err(s("db")), &scope(&[], &[], &[])).failed);
}

#[test]
fn a_wide_level_is_cut_short() {
    let wide: Vec<TagWithCount> = (0..20).map(|n| tag(&format!("t{n}"), &format!("T{n}"), vec![])).collect();
    let (output, count) = reading::render_tags(s("Tags:"), &wide);
    assert_eq!(count, 15);
    assert!(output.ends_with("\n  … 5 more at this level"), "{output}");
}

#[test]
fn windows_of_lines_say_how_to_read_on() {
    let content = "a\nb\nc\nd\n";
    let window = reading::line_window(content, 0, 10, "get_atom");
    assert_eq!((window.rendered.as_str(), window.body.as_str()), ("a\nb\nc\nd", "a\nb\nc\nd"));
    let window = reading::line_window(content, 1, 2, "get_atom");
    assert_eq!(window.body, "b\nc");
    assert_eq!(
        window.rendered,
        "[lines 2-3 of 4. 1 more lines. Call get_atom again with offset=3 to continue.]\nb\nc"
    );
    let window = reading::line_window(content, 3, 2, "get_atom");
    assert_eq!(window.rendered, "[lines 4-4 of 4 (end of content).]\nd");
    let window = reading::line_window(content, 4, 2, "get_atom");
    assert_eq!(window.rendered, "[offset=4 is past end of content (4 total lines)]");
    assert_eq!(reading::line_window("", 0, 5, "x").rendered, "");
}

#[test]
fn paging_has_a_default_and_a_cap() {
    assert_eq!(reading::paging_args(&args("{}")), (0, 500));
    assert_eq!(reading::paging_args(&args(r#"{"offset":7,"limit":9999}"#)), (7, 2000));
    assert_eq!(reading::paging_args(&args(r#"{"offset":-1,"limit":0}"#)), (0, 1));
}

#[test]
fn search_results_carry_the_number_that_cites_them() {
    let request = lookup::search_request(&args(r#"{"query":"q","limit":3,"since_days":7}"#));
    assert_eq!((request.query.as_str(), request.limit, request.since_days), ("q", 3, Some(7)));
    let request = lookup::search_request(&args(r#"{"since_days":1.9}"#));
    assert_eq!((request.limit, request.since_days), (5, Some(1)));
    assert_eq!(lookup::search_request(&args(r#"{"since_days":-3}"#)).since_days, None);

    let mut ledger = open();
    let hit = |id: &str| SearchHit {
        atom_id: s(id),
        chunk_index: 0,
        content: s("text"),
        similarity: s("0.87"),
    };
    let result = lookup::search_result(Ok(vec![hit("a"), hit("b")]), &mut ledger);
    assert!(result.output.contains("[1] (atom_id: a, similarity: 0.87)\ntext"), "{}", result.output);
    assert!(result.output.contains("[2] (atom_id: b, similarity: 0.87)\ntext"), "{}", result.output);
    assert_eq!(result.results_count, 2);
    let none = lookup::search_result(Ok(vec![]), &mut ledger);
    assert_eq!(none.results_count, 0);
    assert!(lookup::search_result(Err(s("down")), &mut ledger).failed);
}

#[test]
fn an_atom_outside_the_scope_is_neither_shown_nor_cited() {
    let mut ledger = open();
    let asked = args(r#"{"atom_id":"a1"}"#);
    let closed = lookup::get_atom(&asked, Ok(false), Ok(Some(s("secret"))), &mut ledger);
    assert!(closed.output.starts_with("Atom a1 is outside this conversation's scope"));
    assert!(!closed.output.contains("secret"));
    assert!(ledger.snapshot().is_empty());
    let read = lookup::get_atom(&asked, Ok(true), Ok(Some(s("one\ntwo"))), &mut ledger);
    assert_eq!(read.output, "[1] (atom_id: a1)\none\ntwo");
    assert_eq!(ledger.snapshot()[0].excerpt, "one\ntwo");
    let missing = lookup::get_atom(&asked, Ok(true), Ok(None), &mut ledger);
    assert_eq!((missing.output.as_str(), missing.failed), ("Atom not found", false));
    assert!(lookup::get_atom(&asked, Err(s("db")), Ok(None), &mut ledger).failed);
    // A run that admits nothing new shows it as background.
    let mut seeded = CitationLedger::new(CitationAdmission::SeededOnly);
    let read = lookup::get_atom(&asked, Ok(true), Ok(Some(s("one"))), &mut seeded);
    assert!(!read.output.contains("[1]"), "{}", read.output);
}

#[test]
fn an_article_loses_its_own_markers_and_becomes_a_source() {
    let mut ledger = open();
    let asked = args(r#"{"tag":"Rust"}"#);
    let tree = tree();
    let target = lookup::wiki_target(&asked, &tree, &scope(&[], &[], &[])).expect("a tag");
    assert_eq!(target.id, "rust");
    let article = || WikiArticle { content: s("Body [1]."), atom_count: 3, updated_at: s("u") };
    let read = lookup::get_wiki(&asked, &target, Ok(Some(article())), &mut ledger);
    assert_eq!(
        read.output,
        "[1] (wiki article for tag: Rust, tag_id: rust, 3 atoms, updated u)\nBody."
    );
    assert_eq!(ledger.snapshot()[0].source, CitationSource::Wiki);
    let none = lookup::get_wiki(&asked, &target, Ok(None), &mut ledger);
    assert!(none.output.starts_with("No wiki article exists for 'Rust' yet."));
    let closed = lookup::wiki_target(&asked, &tree, &scope(&["home"], &[], &[])).unwrap_err();
    assert!(closed.output.contains("outside this conversation's scope"));
    assert!(lookup::wiki_wanted(&args(r#"{"tag":"  "}"#)).expect("refused").failed);
}

#[test]
fn reports_are_listed_without_findings_that_are_out_of_scope() {
    let report = |id: &str| Report {
        id: s(id),
        name: s("Weekly"),
        schedule: s("0 8 * * 1"),
        enabled: id == "r1",
        description: None,
    };
    let finding = |id: &str| {
        Ok(Some(LatestFinding { atom_id: s(id), title: s("Title"), created_at: s("c") }))
    };
    let latest = vec![finding("f1"), finding("f2")];
    assert_eq!(lookup::finding_ids(&latest), vec![s("f1"), s("f2")]);
    let result = lookup::list_reports(
        Ok(vec![report("r1"), report("r2")]),
        &latest,
        Ok(vec![s("f1")]),
    );
    assert_eq!(
        result.output,
        "Weekly (report_id: r1, schedule: 0 8 * * 1)\n  latest finding: Title (c, atom_id: f1)\n\nWeekly (report_id: r2, schedule: 0 8 * * 1, disabled)\n  latest finding: outside this conversation's scope"
    );
    let empty = lookup::list_reports(Ok(vec![]), &vec![], Ok(vec![]));
    assert_eq!(empty.output, "No research reports are configured.");
}

fn atom(content: &str, is_report: bool) -> StoredAtom {
    StoredAtom {
        id: s("a1"),
        title: s("Title"),
        snippet: s("Snippet"),
        content: s(content),
        source_url: None,
        published_at: None,
        created_at: s("c"),
        updated_at: s("u"),
        is_report,
        tags: vec![],
    }
}

#[test]
fn a_finding_is_a_source_of_its_own_kind() {
    let mut ledger = open();
    let asked = args(r#"{"atom_id":"a1"}"#);
    let plain = lookup::get_finding(&asked, Ok(true), Ok(Some(atom("x", false))), None, &mut ledger);
    assert_eq!(plain.output, "Atom a1 is not a report finding. Use get_atom to read it.");
    let read =
        lookup::get_finding(&asked, Ok(true), Ok(Some(atom("x [1]", true))), Some("Weekly"), &mut ledger);
    assert_eq!(read.output, "[1] (finding from report: Weekly, atom_id: a1, created c)\nx");
    assert_eq!(ledger.snapshot()[0].source, CitationSource::Finding);
    let closed = lookup::get_finding(&asked, Ok(false), Ok(None), None, &mut ledger);
    assert!(closed.output.starts_with("That finding is outside this conversation's scope"));
}

#[test]
fn writing_tools_refuse_what_is_empty() {
    let request =
        changes::create_request(&args(r#"{"content":"c","tag_ids":["t","",1]}"#)).expect("a request");
    assert_eq!(request.tag_ids, vec![s("t")]);
    let refused = changes::create_request(&args(r#"{"content":" "}"#)).unwrap_err();
    assert_eq!(refused.failed, true);
    assert!(refused.output.contains("Cannot create an empty atom"));
    assert!(changes::edits_arg(&args("{}")).unwrap_err().output.contains("edits must be an array"));
    assert!(changes::edits_arg(&args(r#"{"edits":[]}"#)).is_ok());
    let existing = atom("body", false);
    assert!(changes::edit_request(&existing, Ok(s("body"))).unwrap_err().failed);
    assert!(changes::edit_request(&existing, Err(s("no match"))).unwrap_err().output.contains("no match"));
    assert_eq!(changes::edit_request(&existing, Ok(s("new"))).expect("an update").request.content, "new");
    let update = changes::edit_request(&existing, Ok(s("new"))).expect("an update");
    assert_eq!(update.expected_updated_at, existing.updated_at);
    let mut ledger = open();
    let told = changes::report_change(&existing, &mut ledger);
    let note = args(&told.output);
    assert_eq!(note.get_str("reference"), Some("[[a1]]"));
    assert_eq!(note.get("citation_index").and_then(|n| n.as_i64()), Some(1));
}

#[test]
fn looking_at_the_page_cites_only_what_is_in_scope() {
    let page = || PageContext {
        view: Some(s("atom")),
        atom_id: Some(s("a1")),
        atom_title: None,
        atom_snippet: None,
        wiki_tag_id: None,
        wiki_tag_name: None,
        selected_tag_id: None,
    };
    let mut ledger = open();
    let shared =
        changes::current_page_context(&page(), Ok(Some(atom("x", false))), Ok(false), &mut ledger);
    assert!(shared.output.contains("Snippet"), "the user shared it: {}", shared.output);
    assert!(ledger.snapshot().is_empty(), "but it is not citable");
    let cited =
        changes::current_page_context(&page(), Ok(Some(atom("x", false))), Ok(true), &mut ledger);
    assert!(cited.output.contains("\"citation_index\": 1"), "{}", cited.output);
    assert_eq!(ledger.snapshot().len(), 1);
}

#[test]
fn the_canvas_is_told_where_to_go() {
    let (command, result) =
        changes::navigate_canvas(CanvasAction::FocusAtom, &args(r#"{"atom_id":"a1"}"#));
    assert_eq!(command.action, "focus_atom");
    assert_eq!(command.params.get_str("atom_id"), Some("a1"));
    assert_eq!(result.output, "Focused canvas on atom 'a1'");
}

#[test]
fn every_turn_gets_the_reading_tools_and_some_get_more() {
    let names = |page, canvas| {
        into_registry(page, canvas)
            .definitions()
            .iter()
            .map(|definition| definition.name.clone())
            .collect::<Vec<String>>()
    };
    let plain = names(false, false);
    assert_eq!(
        plain,
        vec![
            "search_atoms",
            "get_atom",
            "list_tags",
            "get_wiki",
            "list_reports",
            "get_finding",
            "create_atom",
            "edit_atom",
        ]
    );
    assert_eq!(names(true, true).len(), 11);
    let definition = ChatTool::GetAtom.definition();
    assert_eq!(definition.parameters.get_str("type"), Some("object"));
    let properties = definition.parameters.get("properties").unwrap();
    assert!(properties.get("offset").is_some() && properties.get("atom_id").is_some());
    for tool in into_registry(true, true).definitions() {
        assert_eq!(tool.parameters.get_str("type"), Some("object"), "{}", tool.name);
    }
}

#[test]
fn a_written_atom_is_processed_in_full() {
    let job = changes::pipeline_job("a1", "agent_edit_atom");
    assert_eq!((job.atom_id.as_str(), job.reason.as_str()), ("a1", "agent_edit_atom"));
    assert!(job.embed_requested && job.tag_requested && !job.replace_existing);
    assert_eq!(job.not_before, None);
}

#[test]
fn only_a_scope_needs_a_look_at_the_tags() {
    let scope = |included: Vec<String>| ScopeFilter { included, required: vec![], excluded: vec![] };
    let ids = vec![s("a1"), s("a2")];
    assert_eq!(scope(vec![]).admitted_unseen(&ids), Some(ids.clone()));
    assert_eq!(scope(vec![s("t")]).admitted_unseen(&vec![]), Some(vec![]));
    assert_eq!(scope(vec![s("t")]).admitted_unseen(&ids), None);
}

#[test]
fn any_list_of_tags_can_be_pruned_and_again_to_no_effect() {
    let tree = tree();
    let filter = scope(&["rust"], &[], &[]);
    let tags = TagScope::resolve(&tree, &filter);
    let once = tags.prune(&tree);
    assert_eq!(tags.prune(&once), once);
    assert_eq!(once[0].children_total, once[0].children.len() as i32);
    let other = vec![tag("stranger", "Stranger", vec![]), tag("rust", "Rust", vec![])];
    assert_eq!(names(&tags.prune(&other)), vec!["Rust"]);
    let open = scope(&[], &[], &[]);
    assert_eq!(TagScope::resolve(&tree, &open).prune(&other), other);
}
