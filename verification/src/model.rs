//! The values that the index hands back.
use vstd::prelude::*;

verus! {

/// `rusqlite::types::Value`, a value as SQLite returned it.
#[verifier::external_type_specification]
#[verifier::external_body]
pub struct ExSqlValue(rusqlite::types::Value);

/// The outcome of indexing one folder.
#[derive(Debug, Clone, PartialEq, Eq)]
pub struct IndexReport {
    pub root: String,
    pub discovered: usize,
    pub indexed: usize,
    pub unchanged: usize,
    pub removed: usize,
    pub failures: usize,
}

/// How much the index holds.
#[derive(Debug, Clone, PartialEq, Eq)]
pub struct IndexStats {
    pub folders: usize,
    pub documents: usize,
    pub failures: usize,
}

/// Whether meaning search can be used.
#[derive(Debug, Clone, PartialEq, Eq)]
pub struct SemanticStatus {
    pub model_available: bool,
    pub ready: bool,
    pub indexed_documents: usize,
    pub total_documents: usize,
    pub model_name: String,
    pub download_bytes: u64,
}

/// Why a result was found.
#[derive(Debug, Clone, Copy, PartialEq, Eq, Structural)]
pub enum MatchType {
    Filename,
    Content,
    Semantic,
    Hybrid,
}

/// The rank of a keyword-search result.
#[derive(Debug)]
pub enum HitScore {
    /// The BM25 rank that SQLite FTS5 computed, as the database returned it; lower is better.
    Bm25(rusqlite::types::Value),
    /// Short queries rank file-name matches (tier 0) before content matches (tier 1).
    Tier(u8),
}

/// A keyword-search result.
#[derive(Debug)]
pub struct SearchHit {
    pub path: String,
    pub file_name: String,
    pub extension: String,
    pub snippet: String,
    pub match_type: MatchType,
    pub score: HitScore,
}

/// How a result that keyword and meaning search may both have found is labelled.
pub open spec fn fused_match_type_of(lexical: bool, semantic: bool, found_as: MatchType) -> MatchType {
    if lexical && semantic {
        MatchType::Hybrid
    } else if lexical {
        if found_as == MatchType::Filename {
            MatchType::Filename
        } else {
            MatchType::Content
        }
    } else if semantic {
        MatchType::Semantic
    } else {
        found_as
    }
}

/// The label of a combined result: `Hybrid` when both searches found it; otherwise
/// the label of the search that did (a keyword result keeps `Filename`, else becomes
/// `Content`).
pub fn fused_match_type(lexical: bool, semantic: bool, found_as: MatchType) -> (r: MatchType)
    ensures
        r == fused_match_type_of(lexical, semantic, found_as),
{
    match (lexical, semantic, found_as) {
        (true, true, _) => MatchType::Hybrid,
        (true, false, MatchType::Filename) => MatchType::Filename,
        (true, false, _) => MatchType::Content,
        (false, true, _) => MatchType::Semantic,
        _ => found_as,
    }
}

} // verus!
