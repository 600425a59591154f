//! Verified core of a local document search index: query normalisation, term
//! matching, excerpts, discovery rules, document extraction and the SQLite-backed
//! index itself.
pub mod text;
pub mod terms;
pub mod excerpt;
pub mod extractor;
pub mod discovery;
pub mod db;
pub mod error;
pub mod model;
pub mod ranking;
pub mod index;
pub mod laws;

pub use discovery::{is_supported, should_visit, DiscoveredFile, Discovery, DiscoveryFailure};
pub use error::{error_category, Error};
pub use excerpt::{highlighted_excerpt, semantic_document_summary, semantic_excerpt};
pub use extractor::{extract_document, ExtractedDocument, MAX_FILE_SIZE};
pub use index::{SearchIndex, SEMANTIC_INDEX_VERSION, SEMANTIC_MODEL_REPOSITORY};
pub use model::{fused_match_type, HitScore, IndexReport, IndexStats, MatchType, SearchHit, SemanticStatus};
pub use terms::{fields_match_terms, fts_query, normalized_terms, text_matches_term};
