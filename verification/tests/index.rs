use seeklocal_core::index::{
    candidate_limit, open_permission, stats_from_counts, status_from_counts, unchanged_from_answer,
};
use seeklocal_core::ranking::hybrid_candidate_limit;
use seeklocal_core::text::trimmed_query;
use seeklocal_core::{DiscoveredFile, Discovery, DiscoveryFailure, Error, MatchType, SearchIndex};

/// A fresh index in a database file of its own.
fn fresh_index(name: &str) -> SearchIndex {
    let index = SearchIndex::open(&format!("/tmp/seeklocal-core-{name}.db")).expect("index opens");
    index.clear().expect("clear");
    index
}

/// A walk of `root` that found the given files (name and modification time).
fn discovery(root: &str, files: &[(&str, i64)]) -> Discovery {
    Discovery {
        root: root.to_string(),
        files: files
            .iter()
            .map(|(name, _)| DiscoveredFile {
                path: format!("{root}/{name}"),
                file_name: name.to_string(),
            })
            .collect(),
        failures: Vec::new(),
    }
}

fn index_contents(
    index: &SearchIndex,
    walk: &Discovery,
    contents: &[(&str, i64)],
    texts: &[&str],
) -> seeklocal_core::IndexReport {
    let metadata = |i: usize| Ok((texts[i].len() as u64, contents[i].1));
    let read = |i: usize| Ok(texts[i].as_bytes().to_vec());
    index.index_folder(walk, &metadata, &read).expect("indexing succeeds")
}

#[test]
fn indexes_searches_and_removes_in_memory_sources() {
    let index = fresh_index("search");
    let root = "/fixtures/source";
    let files = [("企画書.md", 1), ("privacy-notes.txt", 1)];
    let texts = ["地域の図書館について調査する", "All search remains private and offline."];
    let walk = discovery(root, &files);
    let report = index_contents(&index, &walk, &files, &texts);
    assert_eq!(report.indexed, 2);
    assert_eq!(report.discovered, 2);
    assert_eq!(index.search("図書館", 10).expect("search").len(), 1);
    assert_eq!(index.search("地域", 10).expect("short search").len(), 1);
    assert_eq!(index.search("priv", 10).expect("prefix search").len(), 1);
    assert!(index.search("   ", 10).expect("blank search").is_empty());
    assert_eq!(index.folders().expect("folders"), vec![root.to_string()]);
    assert!(index.open_source("/fixtures/source/企画書.md").is_ok());
    assert!(matches!(index.open_source("/fixtures/source/missing.md"), Err(Error::NotIndexed)));

    index.remove_folder(root).expect("remove succeeds");
    let stats = index.stats().expect("stats");
    assert_eq!(stats.documents, 0);
    assert_eq!(stats.folders, 0);
}

#[test]
fn updates_and_deletes_incrementally_in_memory() {
    let index = fresh_index("incremental");
    let root = "/fixtures/incremental";
    let files = [("notes.txt", 7)];
    let texts = ["first version"];
    let walk = discovery(root, &files);
    index_contents(&index, &walk, &files, &texts);
    let unchanged = index_contents(&index, &walk, &files, &texts);
    assert_eq!(unchanged.unchanged, 1);
    assert_eq!(unchanged.indexed, 0);

    let changed_files = [("notes.txt", 8)];
    let changed = index_contents(&index, &walk, &changed_files, &["second version"]);
    assert_eq!(changed.indexed, 1);

    let empty = discovery(root, &[]);
    let removed = index_contents(&index, &empty, &[], &[]);
    assert_eq!(removed.removed, 1);
    assert_eq!(index.stats().expect("stats").documents, 0);
}

#[test]
fn ascii_terms_match_word_starts_in_the_index() {
    let index = fresh_index("word-starts");
    let root = "/fixtures/words";
    let files = [("syntax.md", 1), ("vehicle-expenses.md", 1)];
    let texts = ["Programming language syntax notes.", "Taxation and tax invoices for a vehicle."];
    let walk = discovery(root, &files);
    index_contents(&index, &walk, &files, &texts);
    let results = index.search("tax", 10).expect("search succeeds");
    assert_eq!(results.len(), 1);
    assert_eq!(results[0].file_name, "vehicle-expenses.md");
    assert_eq!(results[0].match_type, MatchType::Content);
}

#[test]
fn failed_files_are_counted_and_recorded() {
    let index = fresh_index("failures");
    let mut walk = discovery("/fixtures/failing", &[("ok.md", 1), ("bad.md", 1), ("gone.txt", 1)]);
    walk.failures.push(DiscoveryFailure {
        path: Some("/fixtures/failing/locked".to_string()),
        category: "discovery".to_string(),
    });
    let metadata = |i: usize| {
        if i == 2 {
            Err(Error::Io {
                path: "/fixtures/failing/gone.txt".into(),
                source: std::io::Error::new(std::io::ErrorKind::NotFound, "gone"),
            })
        } else {
            Ok((2, 1))
        }
    };
    let read = |i: usize| Ok(if i == 0 { b"ok".to_vec() } else { vec![0xff, 0xff] });
    let report = index.index_folder(&walk, &metadata, &read).expect("indexing succeeds");
    assert_eq!(report.discovered, 3);
    assert_eq!(report.indexed, 1);
    assert_eq!(report.failures, 3);
    let stats = index.stats().expect("stats");
    assert_eq!(stats.documents, 1);
    assert_eq!(stats.failures, 3);
    index.clear().expect("clear");
    let stats = index.stats().expect("stats");
    assert_eq!((stats.folders, stats.documents, stats.failures), (0, 0, 0));
}

#[test]
fn meaning_search_is_ready_only_when_every_document_has_an_embedding() {
    let index = fresh_index("semantic");
    let walk = discovery("/fixtures/semantic", &[("a.md", 1)]);
    index_contents(&index, &walk, &[("a.md", 1)], &["morning run by the river"]);
    let status = index.semantic_status(true).expect("status");
    assert_eq!((status.total_documents, status.indexed_documents, status.ready), (1, 0, false));
    let pending = index.semantic_pending_documents().expect("pending");
    assert_eq!(pending.len(), 1);
    let chunks = vec![(pending[0].0, pending[0].1.clone(), vec![0u8; 8])];
    index.store_semantic_chunks(&chunks).expect("store");
    let status = index.semantic_status(true).expect("status");
    assert!(status.ready);
    assert!(!index.semantic_status(false).expect("status").ready);
    assert_eq!(index.semantic_chunks().expect("chunks").len(), 1);
    assert!(index.semantic_pending_documents().expect("pending").is_empty());
}

#[test]
fn counts_are_read_as_sizes() {
    let stats = stats_from_counts(3, -1, i64::MAX);
    assert_eq!(stats.folders, 3);
    assert_eq!(stats.documents, usize::MAX);
    let status = status_from_counts(true, 2, 2);
    assert!(status.ready);
    assert_eq!(status.download_bytes, 267_000_000);
    assert!(!status_from_counts(true, 0, 0).ready);
    assert!(!status_from_counts(true, 2, 1).ready);
}

#[test]
fn only_files_the_index_holds_may_be_opened() {
    assert!(matches!(open_permission(0), Err(Error::NotIndexed)));
    assert!(open_permission(1).is_ok());
    assert!(open_permission(-1).is_ok());
}

#[test]
fn a_file_is_unchanged_only_when_the_index_answers_it_holds_it() {
    assert!(!unchanged_from_answer(0));
    assert!(unchanged_from_answer(1));
}

#[test]
fn keyword_search_fetches_five_candidates_per_result_up_to_five_hundred() {
    assert_eq!(candidate_limit(1), 5);
    assert_eq!(candidate_limit(20), 100);
    assert_eq!(candidate_limit(100), 500);
    assert_eq!(candidate_limit(101), 500);
}

#[test]
fn combined_search_gathers_four_candidates_per_result_up_to_a_hundred() {
    assert_eq!(hybrid_candidate_limit(0), 4);
    assert_eq!(hybrid_candidate_limit(10), 40);
    assert_eq!(hybrid_candidate_limit(25), 100);
    assert_eq!(hybrid_candidate_limit(1000), 100);
}

#[test]
fn queries_are_trimmed_and_blank_ones_dropped() {
    assert_eq!(trimmed_query("  図書館 \n").as_deref(), Some("図書館"));
    assert_eq!(trimmed_query(" \t "), None);
}

#[test]
fn queries_without_terms_find_nothing() {
    let index = fresh_index("no-terms");
    let root = "/fixtures/no-terms";
    let files = [("notes.md", 1)];
    let texts = ["*** stars and notes ***"];
    let walk = discovery(root, &files);
    index_contents(&index, &walk, &files, &texts);
    assert!(index.search("***", 10).expect("search succeeds").is_empty());
    assert!(index.search(" ?!? ", 10).expect("search succeeds").is_empty());
}
