use seeklocal_core::index::stale_paths;
use seeklocal_core::ranking::{clamp_limit, collect_short_matches, rank_lexical_rows};
use seeklocal_core::{
    fields_match_terms, fts_query, fused_match_type, highlighted_excerpt, normalized_terms,
    semantic_document_summary, semantic_excerpt, text_matches_term, HitScore, MatchType,
};

#[test]
fn turns_user_input_into_safe_prefix_query() {
    assert_eq!(
        fts_query("hello OR 日本語"),
        Some("\"hello\"* AND \"OR\"* AND \"日本語\"*".into())
    );
    assert_eq!(fts_query("***"), None);
}

#[test]
fn semantic_summary_samples_the_whole_document() {
    let content = format!("{}MIDDLE{}ENDING", "A".repeat(500), "B".repeat(500));
    let summary = semantic_document_summary(&content);
    assert!(summary.starts_with('A'));
    assert!(summary.contains("MIDDLE"));
    assert!(summary.ends_with("ENDING"));
    assert!(summary.chars().count() < content.chars().count());
}

#[test]
fn short_documents_are_embedded_whole() {
    let content = "x".repeat(720);
    assert_eq!(semantic_document_summary(&content), content);
    let longer = "y".repeat(721);
    let summary = semantic_document_summary(&longer);
    assert_eq!(summary.chars().count(), 726);
    assert!(summary.contains("\n…\n"));
}

#[test]
fn terms_keep_letters_digits_underscores_and_hyphens() {
    assert_eq!(
        normalized_terms("  hello,  wörld!\t(snake_case) a-b ***  \"q\"\n"),
        vec!["hello", "wörld", "snake_case", "a-b", "q"]
    );
    assert!(normalized_terms(" \t\n").is_empty());
    assert_eq!(fts_query("say \"hi\""), Some("\"say\"* AND \"hi\"*".into()));
}

#[test]
fn ascii_terms_match_only_at_word_starts() {
    assert!(text_matches_term("Taxation and tax invoices", "tax"));
    assert!(text_matches_term("vehicle-expenses.md", "expenses"));
    assert!(!text_matches_term("Programming language syntax notes.", "tax"));
    assert!(text_matches_term("All search remains PRIVATE", "priv"));
    assert!(text_matches_term("privacy-notes.txt", "PRIV"));
    assert!(!text_matches_term("anything", ""));
    // Occurrences are taken from the left without overlapping, as `match_indices` does.
    assert!(!text_matches_term("ba-a-a", "a-a"));
    assert!(text_matches_term("x a-a", "a-a"));
}

#[test]
fn other_terms_match_anywhere_ignoring_case() {
    assert!(text_matches_term("地域の図書館について調査する", "図書館"));
    assert!(text_matches_term("ÉCOLE normale", "école"));
    assert!(!text_matches_term("地域の図書館", "美術館"));
}

#[test]
fn every_term_must_match_some_field() {
    let terms = normalized_terms("tax notes");
    assert!(fields_match_terms("vehicle.md", "/docs/notes/vehicle.md", "Tax report", &terms));
    assert!(!fields_match_terms("vehicle.md", "/docs/vehicle.md", "Tax report", &terms));
}

#[test]
fn snippets_highlight_the_first_occurrence() {
    assert_eq!(
        highlighted_excerpt("The quick brown fox", "brown"),
        "The quick <mark>brown</mark> fox"
    );
    assert_eq!(highlighted_excerpt("The Quick fox", "quick"), "The <mark>Quick</mark> fox");
    let long = format!("{}needle{}", "a".repeat(50), "b".repeat(100));
    assert_eq!(
        highlighted_excerpt(&long, "needle"),
        format!("... {}<mark>needle</mark>{} ...", "a".repeat(36), "b".repeat(72))
    );
    let absent = "c".repeat(200);
    assert_eq!(highlighted_excerpt(&absent, "zz"), "c".repeat(120));
}

#[test]
fn semantic_snippets_are_cut_at_280_characters() {
    assert_eq!(semantic_excerpt("short"), "short");
    let long = "é".repeat(300);
    assert_eq!(semantic_excerpt(&long), format!("{} ...", "é".repeat(280)));
}

#[test]
fn limits_are_clamped() {
    assert_eq!(clamp_limit(0), 1);
    assert_eq!(clamp_limit(10), 10);
    assert_eq!(clamp_limit(1000), 100);
}

fn lexical_row(
    path: &str,
    file_name: &str,
    rank: f64,
    content: &str,
) -> (String, String, String, String, rusqlite::types::Value, String) {
    (
        path.to_string(),
        file_name.to_string(),
        "md".to_string(),
        format!("snippet of {file_name}"),
        rusqlite::types::Value::Real(rank),
        content.to_string(),
    )
}

#[test]
fn keyword_results_put_file_name_matches_first() {
    let terms = normalized_terms("tax");
    let rows = vec![
        lexical_row("/a/syntax.md", "syntax.md", -3.0, "Programming language syntax."),
        lexical_row("/a/notes.md", "notes.md", -2.0, "The tax office."),
        lexical_row("/a/tax.md", "tax.md", -1.0, "Nothing here."),
        lexical_row("/a/more.md", "more.md", -0.5, "More tax forms."),
    ];
    let hits = rank_lexical_rows(rows, &terms, 10);
    let paths: Vec<&str> = hits.iter().map(|h| h.path.as_str()).collect();
    assert_eq!(paths, vec!["/a/tax.md", "/a/notes.md", "/a/more.md"]);
    assert_eq!(hits[0].match_type, MatchType::Filename);
    assert_eq!(hits[1].match_type, MatchType::Content);
    assert!(matches!(hits[0].score, HitScore::Bm25(rusqlite::types::Value::Real(r)) if r == -1.0));

    let rows = vec![
        lexical_row("/a/notes.md", "notes.md", -2.0, "The tax office."),
        lexical_row("/a/more.md", "more.md", -0.5, "More tax forms."),
    ];
    assert_eq!(rank_lexical_rows(rows, &terms, 1).len(), 1);
}

#[test]
fn short_queries_match_substrings_and_stop_at_the_limit() {
    let rows = vec![
        ("/d/地域.md".to_string(), "地域.md".to_string(), "md".to_string(), "本文".to_string()),
        ("/d/a.md".to_string(), "a.md".to_string(), "md".to_string(), "地域の図書館".to_string()),
        ("/d/b.md".to_string(), "b.md".to_string(), "md".to_string(), "unrelated".to_string()),
        ("/d/c.md".to_string(), "c.md".to_string(), "md".to_string(), "地域".to_string()),
    ];
    let hits = collect_short_matches(rows.clone(), "地域", 10);
    assert_eq!(hits.len(), 3);
    assert_eq!(hits[0].match_type, MatchType::Filename);
    assert!(matches!(hits[0].score, HitScore::Tier(0)));
    assert_eq!(hits[1].snippet, "<mark>地域</mark>の図書館");
    assert!(matches!(hits[1].score, HitScore::Tier(1)));
    assert_eq!(collect_short_matches(rows, "地域", 2).len(), 2);
}

#[test]
fn stale_paths_are_those_no_longer_found() {
    let existing = vec!["/r/a.md".to_string(), "/r/b.md".to_string(), "/r/c.md".to_string()];
    let discovered = vec!["/r/c.md".to_string(), "/r/a.md".to_string()];
    assert_eq!(stale_paths(existing, &discovered), vec!["/r/b.md".to_string()]);
}

#[test]
fn combined_results_are_labelled_by_their_sources() {
    assert_eq!(fused_match_type(true, true, MatchType::Filename), MatchType::Hybrid);
    assert_eq!(fused_match_type(true, false, MatchType::Filename), MatchType::Filename);
    assert_eq!(fused_match_type(true, false, MatchType::Semantic), MatchType::Content);
    assert_eq!(fused_match_type(false, true, MatchType::Content), MatchType::Semantic);
    assert_eq!(fused_match_type(false, false, MatchType::Content), MatchType::Content);
}
