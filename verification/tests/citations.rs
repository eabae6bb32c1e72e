use atomic_core::agent_runtime::citations::strip_citation_markers;
use atomic_core::agent_runtime::citations::CitationAdmission;
use atomic_core::agent_runtime::citations::CitationLedger;
use atomic_core::agent_runtime::citations::CitationSource;

fn open() -> CitationLedger {
    CitationLedger::new(CitationAdmission::Open)
}

#[test]
fn numbers_are_assigned_on_first_sighting_and_reused() {
    let mut ledger = open();
    assert_eq!(
        ledger.register(CitationSource::Atom, "a1", Some(0), "first"),
        Some(1)
    );
    assert_eq!(
        ledger.register(CitationSource::Atom, "a2", None, "second"),
        Some(2)
    );
    // Same source again — same number, original excerpt.
    assert_eq!(
        ledger.register(CitationSource::Atom, "a1", None, "rewritten"),
        Some(1)
    );
    let snapshot = ledger.snapshot();
    assert_eq!(snapshot.len(), 2);
    assert_eq!(snapshot[0].excerpt, "first");
}

#[test]
fn seeded_only_refuses_evidence_the_run_did_not_start_with() {
    let mut ledger = CitationLedger::new(CitationAdmission::SeededOnly);
    assert_eq!(ledger.seed(CitationSource::Atom, "a1", None, "source"), 1);
    assert_eq!(
        ledger.register(CitationSource::Atom, "a1", None, "source"),
        Some(1),
        "seeded evidence stays citable"
    );
    assert_eq!(
        ledger.register(CitationSource::Atom, "a2", None, "context"),
        None,
        "new evidence is background only"
    );
    assert_eq!(ledger.snapshot().len(), 1);
}

#[test]
fn only_cited_numbers_are_returned_and_markers_keep_their_number() {
    let mut ledger = open();
    for id in ["a1", "a2", "a3"] {
        ledger.register(CitationSource::Atom, id, None, id);
    }
    // Out of sequence, one marker repeated, one never cited.
    let cited = ledger.cited_in("First [3]. Then [1]. Again [1].");
    assert_eq!(cited.len(), 2);
    assert_eq!(cited[0].number, 3);
    assert_eq!(cited[0].source_id, "a3");
    assert_eq!(cited[1].number, 1);
    assert_eq!(cited[1].source_id, "a1");
}

#[test]
fn invented_markers_are_dropped() {
    let mut ledger = open();
    ledger.register(CitationSource::Atom, "a1", None, "only source");
    let cited = ledger.cited_in("Real [1]. Hallucinated [9].");
    assert_eq!(cited.len(), 1);
    assert_eq!(cited[0].source_id, "a1");
}

#[test]
fn resolve_maps_an_explicit_trailer_list() {
    let mut ledger = open();
    ledger.register(CitationSource::Atom, "a1", None, "one");
    ledger.register(CitationSource::Atom, "a2", None, "two");
    let cited = ledger.resolve(&[2, 2, 7]);
    assert_eq!(cited.len(), 1);
    assert_eq!(cited[0].source_id, "a2");
}

#[test]
fn sources_of_different_kinds_are_numbered_apart() {
    let mut ledger = open();
    assert_eq!(ledger.register(CitationSource::Atom, "x", None, "atom"), Some(1));
    assert_eq!(ledger.register(CitationSource::Wiki, "x", None, "wiki"), Some(2));
    assert_eq!(ledger.register(CitationSource::Finding, "x", None, "finding"), Some(3));
    assert_eq!(CitationSource::Atom.as_str(), "atom");
    let numbers: Vec<i32> = ledger.snapshot().iter().map(|c| c.number).collect();
    assert_eq!(numbers, vec![1, 2, 3]);
}

#[test]
fn markers_too_large_for_a_number_are_dropped() {
    let mut ledger = open();
    ledger.register(CitationSource::Atom, "a1", None, "only");
    assert!(ledger.cited_in("See [99999999999999999999].").is_empty());
    assert!(ledger.cited_in("No markers at all, [x] and [] included.").is_empty());
}

#[test]
fn stripping_takes_the_space_before_a_marker_along() {
    assert_eq!(strip_citation_markers("One [1]. Two[2] three."), "One. Two three.");
    assert_eq!(strip_citation_markers("Nothing [here] to strip."), "Nothing [here] to strip.");
    assert_eq!(strip_citation_markers(""), "");
}

#[test]
fn citing_numbers_gives_what_resolving_them_gives() {
    let mut ledger = open();
    for id in ["a1", "a2", "a3"] {
        ledger.register(CitationSource::Atom, id, None, id);
    }
    let numbers = [3, -1, 0, 1, 3, 12, 2];
    let marks: String = numbers.iter().map(|n| format!("[{n}]")).collect();
    assert_eq!(ledger.cited_in(&marks), ledger.resolve(&numbers));
    let cited: Vec<i32> = ledger.resolve(&numbers).iter().map(|citable| citable.number).collect();
    assert_eq!(cited, vec![3, 1, 2]);
    let all: Vec<i32> = ledger.snapshot().iter().map(|citable| citable.number).collect();
    assert_eq!(ledger.resolve(&all), ledger.snapshot());
}
