//! The local search index: a SQLite database with the indexed folders, the text of
//! their documents (searchable through FTS5), the files that failed, and the
//! embeddings of meaning search.
use rusqlite::Error as SqliteError;
use vstd::prelude::*;
use vstd::utf8::valid_utf8;

use crate::db::{
    db_execute, db_execute_batch, db_open, db_pragma_update, db_query_rows, db_query_value,
};
use crate::discovery::{extension_for_record, is_supported_name, DiscoveredFile, Discovery};
use crate::error::{error_category, Error};
use crate::extractor::{extract_document, MAX_FILE_SIZE};
use crate::model::{IndexReport, IndexStats, SearchHit, SemanticStatus};
use crate::ranking::{
    clamp_limit, collect_short_matches, hit_views, lexical_results, prefix, rank_lexical_rows,
    result_limit, short_results, LexicalRow, ShortQueryRow, MAX_CANDIDATES,
};
use crate::terms::{fts_query, normalized_terms, normalized_terms_of, views};
use crate::text::{
    chars_of, lemma_filter_empty, lemma_filter_push, string_from, trim_chars, trim_white_space,
};

verus! {

/// The tables, full-text index and triggers of the index database.
pub const SCHEMA: &'static str = "
PRAGMA foreign_keys = ON;
CREATE TABLE IF NOT EXISTS folders (
    path TEXT PRIMARY KEY NOT NULL,
    indexed_at TEXT NOT NULL DEFAULT CURRENT_TIMESTAMP
);
CREATE TABLE IF NOT EXISTS documents (
    id INTEGER PRIMARY KEY,
    root TEXT NOT NULL REFERENCES folders(path) ON DELETE CASCADE,
    path TEXT UNIQUE NOT NULL,
    file_name TEXT NOT NULL,
    extension TEXT NOT NULL,
    size INTEGER NOT NULL,
    modified_ns INTEGER NOT NULL,
    fingerprint TEXT NOT NULL,
    content TEXT NOT NULL
);
CREATE TABLE IF NOT EXISTS failures (
    id INTEGER PRIMARY KEY,
    root TEXT NOT NULL REFERENCES folders(path) ON DELETE CASCADE,
    path TEXT,
    category TEXT NOT NULL,
    created_at TEXT NOT NULL DEFAULT CURRENT_TIMESTAMP
);
CREATE VIRTUAL TABLE IF NOT EXISTS documents_fts USING fts5(
    file_name,
    path,
    content,
    content='documents',
    content_rowid='id',
    tokenize='trigram'
);
CREATE TABLE IF NOT EXISTS semantic_chunks (
    document_id INTEGER NOT NULL REFERENCES documents(id) ON DELETE CASCADE,
    chunk_index INTEGER NOT NULL,
    content TEXT NOT NULL,
    embedding BLOB NOT NULL,
    model TEXT NOT NULL,
    PRIMARY KEY(document_id, chunk_index, model)
);
CREATE INDEX IF NOT EXISTS semantic_chunks_model_document
ON semantic_chunks(model, document_id);
CREATE TRIGGER IF NOT EXISTS documents_insert AFTER INSERT ON documents BEGIN
    INSERT INTO documents_fts(rowid, file_name, path, content)
    VALUES (new.id, new.file_name, new.path, new.content);
END;
CREATE TRIGGER IF NOT EXISTS documents_delete AFTER DELETE ON documents BEGIN
    INSERT INTO documents_fts(documents_fts, rowid, file_name, path, content)
    VALUES ('delete', old.id, old.file_name, old.path, old.content);
END;
CREATE TRIGGER IF NOT EXISTS documents_update AFTER UPDATE ON documents BEGIN
    INSERT INTO documents_fts(documents_fts, rowid, file_name, path, content)
    VALUES ('delete', old.id, old.file_name, old.path, old.content);
    INSERT INTO documents_fts(rowid, file_name, path, content)
    VALUES (new.id, new.file_name, new.path, new.content);
END;
CREATE TRIGGER IF NOT EXISTS documents_semantic_stale AFTER UPDATE OF content ON documents BEGIN
    DELETE FROM semantic_chunks WHERE document_id = new.id;
END;
PRAGMA user_version = 1;
";

/// The repository of the embedding model used by meaning search.
pub const SEMANTIC_MODEL_REPOSITORY: &'static str = "Qdrant/paraphrase-multilingual-MiniLM-L12-v2-onnx-Q";

/// The label stored with every embedding; embeddings of other labels are stale.
pub const SEMANTIC_INDEX_VERSION: &'static str =
    "Qdrant/paraphrase-multilingual-MiniLM-L12-v2-onnx-Q#document-v1";

/// The approximate size of the embedding model download.
pub const SEMANTIC_MODEL_DOWNLOAD_BYTES: u64 = 267_000_000;

/// A count as SQLite returns it, as a `usize`; negative or too large counts become
/// `usize::MAX`.
pub open spec fn count_value(value: i64) -> usize {
    if 0 <= value && value <= usize::MAX {
        value as usize
    } else {
        usize::MAX
    }
}

/// A file size as stored in the database: sizes beyond `i64::MAX` are stored as `i64::MAX`.
pub open spec fn stored_size(size: u64) -> i64 {
    if size <= i64::MAX {
        size as i64
    } else {
        i64::MAX
    }
}

/// The statistics for the three counts of the index.
pub open spec fn stats_of(folders: i64, documents: i64, failures: i64) -> IndexStats {
    IndexStats {
        folders: count_value(folders),
        documents: count_value(documents),
        failures: count_value(failures),
    }
}

/// Meaning search is ready when the model is available and every document with text
/// has its embedding.
pub open spec fn semantic_ready(model_available: bool, indexed: usize, total: usize) -> bool {
    model_available && total > 0 && indexed == total
}

/// The paths of a folder that the database holds but the walk no longer found.
pub open spec fn stale_paths_of(existing: Seq<Seq<char>>, discovered: Seq<Seq<char>>) -> Seq<
    Seq<char>,
> {
    existing.filter(|p: Seq<char>| !discovered.contains(p))
}

/// A count as SQLite returns it, as a `usize`.
pub fn count_from(value: i64) -> (r: usize)
    ensures
        r == count_value(value),
{
    if 0 <= value && value as u64 <= usize::MAX as u64 {
        value as usize
    } else {
        usize::MAX
    }
}

/// A file size as stored in the database.
pub fn size_for_record(size: u64) -> (r: i64)
    ensures
        r == stored_size(size),
{
    if size <= i64::MAX as u64 {
        size as i64
    } else {
        i64::MAX
    }
}

/// The statistics for the three counts of the index.
pub fn stats_from_counts(folders: i64, documents: i64, failures: i64) -> (r: IndexStats)
    ensures
        r == stats_of(folders, documents, failures),
{
    IndexStats {
        folders: count_from(folders),
        documents: count_from(documents),
        failures: count_from(failures),
    }
}

/// The status of meaning search for the counts of documents with text and of
/// documents with an embedding.
pub fn status_from_counts(model_available: bool, total_documents: i64, indexed_documents: i64) -> (r:
    SemanticStatus)
    ensures
        r.model_available == model_available,
        r.total_documents == count_value(total_documents),
        r.indexed_documents == count_value(indexed_documents),
        r.ready == semantic_ready(model_available, r.indexed_documents, r.total_documents),
        r.model_name@ == SEMANTIC_MODEL_REPOSITORY@,
        r.download_bytes == SEMANTIC_MODEL_DOWNLOAD_BYTES,
{
    let total_documents = count_from(total_documents);
    let indexed_documents = count_from(indexed_documents);
    SemanticStatus {
        model_available,
        ready: model_available && total_documents > 0 && indexed_documents == total_documents,
        indexed_documents,
        total_documents,
        model_name: SEMANTIC_MODEL_REPOSITORY.to_owned(),
        download_bytes: SEMANTIC_MODEL_DOWNLOAD_BYTES,
    }
}

/// Whether `paths` holds `path`.
fn contains_path(paths: &Vec<String>, path: &String) -> (r: bool)
    ensures
        r == views(paths@).contains(path@),
{
    let mut i: usize = 0;
    while i < paths.len()
        invariant
            i <= paths.len(),
            forall|j: int| 0 <= j < i ==> paths@[j]@ != path@,
        decreases paths.len() - i,
    {
        if paths[i] == *path {
            assert(views(paths@)[i as int] == path@);
            return true;
        }
        i += 1;
    }
    assert forall|j: int| 0 <= j < views(paths@).len() implies views(paths@)[j] != path@ by {
        assert(views(paths@)[j] == paths@[j]@);
    }
    false
}

/// The paths of a folder that the database holds but the walk no longer found, in
/// the order the database gave them.
pub fn stale_paths(existing: Vec<String>, discovered: &Vec<String>) -> (r: Vec<String>)
    ensures
        views(r@) == stale_paths_of(views(existing@), views(discovered@)),
{
    let ghost pred = |p: Seq<char>| !views(discovered@).contains(p);
    let mut stale: Vec<String> = Vec::new();
    let ghost all = existing@;
    proof {
        lemma_filter_empty(Seq::<Seq<char>>::empty(), pred);
        assert(views(all).take(0) =~= Seq::<Seq<char>>::empty());
        assert(views(stale@) =~= Seq::<Seq<char>>::empty());
    }
    for path in it: existing
        invariant
            it.seq() == all,
            pred == (|p: Seq<char>| !views(discovered@).contains(p)),
            views(stale@) == views(all).take(it.index() as int).filter(pred),
    {
        let ghost i = it.index();
        proof {
            assert(views(all).take(i + 1) =~= views(all).take(i as int).push(path@));
            lemma_filter_push(views(all).take(i as int), path@, pred);
        }
        if !contains_path(discovered, &path) {
            stale.push(path);
            assert(views(stale@) =~= views(all).take(i as int).filter(pred).push(
                views(all)[i as int],
            ));
        }
    }
    assert(views(all).take(views(all).len() as int) =~= views(all));
    stale
}

/// What became of a file of a walk when its folder was indexed.
pub ghost enum FileOutcome {
    /// The file could not be indexed and was recorded as a failure.
    Failed,
    /// The index already held the file with the same size and modification time.
    Unchanged,
    /// The file's text was stored.
    Indexed,
}

/// How many of `outcomes` are `o`.
pub open spec fn count_outcomes(outcomes: Seq<FileOutcome>, o: FileOutcome) -> nat
    decreases outcomes.len(),
{
    if outcomes.len() == 0 {
        0
    } else {
        count_outcomes(outcomes.drop_last(), o) + if outcomes.last() == o {
            1nat
        } else {
            0nat
        }
    }
}

/// Whether the database's answer to "does it hold this path with this size and
/// modification time" (`EXISTS`, nonzero when it does) means the file is unchanged.
pub open spec fn answer_means_unchanged(answer: i64) -> bool {
    answer != 0
}

/// Whether a file is unchanged, given the database's answer to whether it holds the
/// file's path with the file's size and modification time.
pub fn unchanged_from_answer(answer: i64) -> (r: bool)
    ensures
        r == answer_means_unchanged(answer),
{
    answer != 0
}

/// The outcome `o` for the file at position `i` is what the answers of `metadata` and
/// `read`, and the database's `answer` on the file's size and modification time,
/// allow: an unchanged file had its metadata read and the database answered that it
/// holds the file with that size and time; a stored file was not unchanged and is
/// supported, at most 16 MiB, readable and valid UTF-8; a failed file had its metadata
/// fail to be read, or was not unchanged and is unsupported, too large, unreadable or
/// not UTF-8.
pub open spec fn outcome_fits<M, R>(
    metadata: &M,
    read: &R,
    file_name: Seq<char>,
    i: usize,
    answer: i64,
    o: FileOutcome,
) -> bool where M: Fn(usize) -> Result<(u64, i64), Error>, R: Fn(usize) -> Result<Vec<u8>, Error> {
    match o {
        FileOutcome::Failed => {
            ||| exists|e: Error| metadata.ensures((i,), Err(e))
            ||| {
                &&& !answer_means_unchanged(answer)
                &&& {
                    ||| !is_supported_name(file_name)
                    ||| exists|m: (u64, i64)| metadata.ensures((i,), Ok(m)) && m.0 > MAX_FILE_SIZE
                    ||| exists|e: Error| read.ensures((i,), Err(e))
                    ||| exists|bytes: Vec<u8>|
                        read.ensures((i,), Ok(bytes)) && !valid_utf8(bytes@)
                }
            }
        },
        FileOutcome::Unchanged => {
            &&& answer_means_unchanged(answer)
            &&& exists|m: (u64, i64)| metadata.ensures((i,), Ok(m))
        },
        FileOutcome::Indexed => {
            &&& !answer_means_unchanged(answer)
            &&& is_supported_name(file_name)
            &&& exists|m: (u64, i64)| metadata.ensures((i,), Ok(m)) && m.0 <= MAX_FILE_SIZE
            &&& exists|bytes: Vec<u8>| read.ensures((i,), Ok(bytes)) && valid_utf8(bytes@)
        },
    }
}

/// The paths of the files that a walk found.
pub open spec fn discovered_paths_of(files: Seq<DiscoveredFile>) -> Seq<Seq<char>> {
    files.map_values(|f: DiscoveredFile| f.path@)
}

/// How many candidate rows the full-text query fetches for `limit` results: five per
/// result, at most `MAX_CANDIDATES`.
pub open spec fn candidates_for(limit: usize) -> int {
    if 5 * limit > MAX_CANDIDATES {
        MAX_CANDIDATES as int
    } else {
        5 * limit
    }
}

/// How many candidate rows the full-text query fetches for `limit` results.
pub fn candidate_limit(limit: usize) -> (r: i64)
    ensures
        r == candidates_for(limit),
{
    if limit > MAX_CANDIDATES / 5 {
        MAX_CANDIDATES as i64
    } else {
        (limit * 5) as i64
    }
}

/// A database result, with a failure of the database as the index's `Error::Database`.
fn database<T>(r: Result<T, SqliteError>) -> (out: Result<T, Error>)
    ensures
        match r {
            Ok(v) => out == Ok::<T, Error>(v),
            Err(e) => out == Err::<T, Error>(Error::Database(e)),
        },
{
    match r {
        Ok(v) => Ok(v),
        Err(e) => Err(Error::Database(e)),
    }
}

/// The first column of each row.
fn first_column(rows: Vec<(String,)>) -> (r: Vec<String>)
    ensures
        r@ == rows@.map_values(|row: (String,)| row.0),
{
    let ghost all = rows@;
    let mut out: Vec<String> = Vec::new();
    assert(all.take(0).map_values(|row: (String,)| row.0) =~= out@);
    for row in it: rows
        invariant
            it.seq() == all,
            out@ == all.take(it.index() as int).map_values(|row: (String,)| row.0),
    {
        let ghost i = it.index();
        out.push(row.0);
        assert(out@ =~= all.take(i + 1).map_values(|row: (String,)| row.0));
    }
    assert(all.take(all.len() as int) =~= all);
    out
}

/// The paths in the rows of a `SELECT path` query.
pub open spec fn stored_paths_of(rows: Seq<(String,)>) -> Seq<Seq<char>> {
    rows.map_values(|row: (String,)| row.0@)
}

/// Deletes the documents whose paths the database gave for a folder (`existing`) but
/// the walk no longer found (`discovered`), and answers how many those are.
fn remove_stale_documents(
    connection: &rusqlite::Connection,
    existing: Vec<(String,)>,
    discovered: &Vec<String>,
) -> (r: Result<usize, Error>)
    ensures
        r matches Err(e) ==> e is Database,
        r matches Ok(n) ==> n == stale_paths_of(stored_paths_of(existing@), views(discovered@)).len(),
{
    let ghost rows = existing@;
    let stored = first_column(existing);
    assert(views(stored@) =~= stored_paths_of(rows));
    let stale = stale_paths(stored, discovered);
    assert(stale@.len() == views(stale@).len());
    let mut s: usize = 0;
    while s < stale.len()
        invariant
            s <= stale.len(),
        decreases stale.len() - s,
    {
        database(db_execute(connection, "DELETE FROM documents WHERE path = ?1", (&stale[s],)))?;
        s += 1;
    }
    Ok(stale.len())
}

/// The statement that stores a document: it inserts the row of a new path, and for a
/// path the index already holds, it replaces every value of the row with the new one.
pub open spec fn document_upsert_sql() -> Seq<char> {
    "INSERT INTO documents(root, path, file_name, extension, size, modified_ns, fingerprint, content) VALUES (?1, ?2, ?3, ?4, ?5, ?6, ?7, ?8) ON CONFLICT(path) DO UPDATE SET "@
        + "root=excluded.root"@ + ", "@ + "file_name=excluded.file_name"@ + ", "@
        + "extension=excluded.extension"@ + ", "@ + "size=excluded.size"@ + ", "@
        + "modified_ns=excluded.modified_ns"@ + ", "@ + "fingerprint=excluded.fingerprint"@ + ", "@
        + "content=excluded.content"@
}

/// The statement that stores a document (see `document_upsert_sql`).
pub fn document_upsert_statement() -> (r: String)
    ensures
        r@ == document_upsert_sql(),
{
    let mut sql = String::from_str(
        "INSERT INTO documents(root, path, file_name, extension, size, modified_ns, fingerprint, content) VALUES (?1, ?2, ?3, ?4, ?5, ?6, ?7, ?8) ON CONFLICT(path) DO UPDATE SET ",
    );
    sql.append("root=excluded.root");
    sql.append(", ");
    sql.append("file_name=excluded.file_name");
    sql.append(", ");
    sql.append("extension=excluded.extension");
    sql.append(", ");
    sql.append("size=excluded.size");
    sql.append(", ");
    sql.append("modified_ns=excluded.modified_ns");
    sql.append(", ");
    sql.append("fingerprint=excluded.fingerprint");
    sql.append(", ");
    sql.append("content=excluded.content");
    sql
}

/// Records a file that could not be indexed.
fn record_failure(
    connection: &rusqlite::Connection,
    root: &String,
    path: Option<&String>,
    category: &str,
) -> (r: Result<(), Error>)
        ensures
            r matches Err(e) ==> e is Database,
    {
    database(
        db_execute(
            connection,
            "INSERT INTO failures(root, path, category) VALUES (?1, ?2, ?3)",
            (root, path, category),
        ),
    )?;
    Ok(())
}

/// Whether the database holds `path` with this size and modification time, with the
/// database's answer it was decided from.
fn document_is_unchanged(
    connection: &rusqlite::Connection,
    path: &String,
    size: u64,
    modified_ns: i64,
) -> (r: Result<(bool, Ghost<i64>), Error>)
        ensures
            r matches Err(e) ==> e is Database,
            r matches Ok((unchanged, answer)) ==> unchanged == answer_means_unchanged(answer@),
    {
    let size = size_for_record(size);
    let found: i64 = database(
        db_query_value(
            connection,
            "SELECT EXISTS(SELECT 1 FROM documents WHERE path = ?1 AND size = ?2 AND modified_ns = ?3)",
            (path, size, modified_ns),
        ),
    )?;
    Ok((unchanged_from_answer(found), Ghost(found)))
}

/// The number of rows a `SELECT count(...)` query counts.
fn count(connection: &rusqlite::Connection, sql: &str) -> (r: Result<i64, Error>)
        ensures
            r matches Err(e) ==> e is Database,
    {
    database(db_query_value(connection, sql, ()))
}

/// Whether a file may be opened, given the index's answer to whether it holds the
/// file (`EXISTS` answers a nonzero value when it does): `Err(NotIndexed)` otherwise.
pub fn open_permission(indexed: i64) -> (r: Result<(), Error>)
    ensures
        r is Ok <==> indexed != 0,
        r matches Err(e) ==> e is NotIndexed,
{
    if indexed == 0 {
        Err(Error::NotIndexed)
    } else {
        Ok(())
    }
}

/// A local search index, stored in the SQLite database at a path of the file system.
pub struct SearchIndex {
    database_path: String,
}

impl SearchIndex {
    /// The path of the database file.
    pub closed spec fn location(self) -> Seq<char> {
        self.database_path@
    }

    /// Opens the index stored at `database_path` (whose folder must exist), creating
    /// its tables when they do not exist yet.
    pub fn open(database_path: &str) -> (r: Result<SearchIndex, Error>)
        ensures
            r matches Err(e) ==> e is Database,
            r matches Ok(index) ==> index.location() == database_path@,
    {
        let index = SearchIndex { database_path: database_path.to_owned() };
        let connection = index.connection()?;
        database(db_execute_batch(&connection, SCHEMA))?;
        Ok(index)
    }

    /// A connection to the database, with foreign keys enforced and write-ahead logging.
    fn connection(&self) -> (r: Result<rusqlite::Connection, Error>)
        ensures
            r matches Err(e) ==> e is Database,
    {
        let connection = database(db_open(self.database_path.as_str()))?;
        database(db_pragma_update(&connection, "foreign_keys", true))?;
        database(db_pragma_update(&connection, "journal_mode", "WAL"))?;
        Ok(connection)
    }

    /// How many folders, documents and failed files the index holds.
    pub fn stats(&self) -> (r: Result<IndexStats, Error>)
        ensures
            r matches Err(e) ==> e is Database,
            r matches Ok(stats) ==> exists|folders: i64, documents: i64, failures: i64|
                stats == stats_of(folders, documents, failures),
    {
        let connection = self.connection()?;
        let folders = count(&connection, "SELECT count(*) FROM folders")?;
        let documents = count(&connection, "SELECT count(*) FROM documents")?;
        let failures = count(&connection, "SELECT count(*) FROM failures")?;
        let stats = stats_from_counts(folders, documents, failures);
        assert(stats == stats_of(folders, documents, failures));
        Ok(stats)
    }

    /// The indexed folders, ordered by path ignoring case.
    pub fn folders(&self) -> (r: Result<Vec<String>, Error>)
        ensures
            r matches Err(e) ==> e is Database,
    {
        let connection = self.connection()?;
        let rows: Vec<(String,)> = database(
            db_query_rows(&connection, "SELECT path FROM folders ORDER BY path COLLATE NOCASE", ()),
        )?;
        Ok(first_column(rows))
    }

    /// Indexes the files that a walk of a folder found, in one transaction: records the
    /// folder and the walk's failures, stores every file whose size or modification
    /// time changed (`metadata` and `read` give the size and time, and the bytes, of
    /// the file at a position of `discovery.files`), records the files that cannot be
    /// indexed, and removes the documents of the folder that the walk no longer found.
    /// A file counts as unchanged exactly when the database answers that it holds the
    /// file's path with its size and time (`answers`), and `removed` counts the paths
    /// that the database gave for the folder (`stored`) and the walk no longer found.
    pub fn index_folder<M, R>(&self, discovery: &Discovery, metadata: &M, read: &R) -> (r: Result<
        IndexReport,
        Error,
    >) where
        M: Fn(usize) -> Result<(u64, i64), Error>,
        R: Fn(usize) -> Result<Vec<u8>, Error>,

        requires
            discovery.files.len() + discovery.failures.len() <= usize::MAX,
            forall|i: usize|
                i < discovery.files.len() ==> metadata.requires((i,)) && read.requires((i,)),
        ensures
            r matches Err(e) ==> e is Database,
            r matches Ok(report) ==> {
                &&& report.root@ == discovery.root@
                &&& report.discovered == discovery.files.len()
                &&& report.failures >= discovery.failures.len()
                &&& report.indexed + report.unchanged + (report.failures
                    - discovery.failures.len()) == report.discovered
                &&& exists|outcomes: Seq<FileOutcome>, answers: Seq<i64>|
                    {
                        &&& outcomes.len() == discovery.files.len()
                        &&& answers.len() == discovery.files.len()
                        &&& forall|i: int|
                            0 <= i < outcomes.len() ==> outcome_fits(
                                metadata,
                                read,
                                discovery.files@[i].file_name@,
                                i as usize,
                                answers[i],
                                #[trigger] outcomes[i],
                            )
                        &&& report.indexed == count_outcomes(outcomes, FileOutcome::Indexed)
                        &&& report.unchanged == count_outcomes(outcomes, FileOutcome::Unchanged)
                        &&& report.failures == discovery.failures.len() + count_outcomes(
                            outcomes,
                            FileOutcome::Failed,
                        )
                    }
                &&& exists|stored: Seq<Seq<char>>|
                    report.removed == #[trigger] stale_paths_of(
                        stored,
                        discovered_paths_of(discovery.files@),
                    ).len()
            },
    {
        let root = &discovery.root;
        let connection = self.connection()?;
        database(db_execute_batch(&connection, "BEGIN DEFERRED"))?;
        database(
            db_execute(
                &connection,
                "INSERT INTO folders(path, indexed_at) VALUES (?1, CURRENT_TIMESTAMP)
             ON CONFLICT(path) DO UPDATE SET indexed_at = CURRENT_TIMESTAMP",
                (root,),
            ),
        )?;
        database(db_execute(&connection, "DELETE FROM failures WHERE root = ?1", (root,)))?;
        let mut k: usize = 0;
        while k < discovery.failures.len()
            invariant
                k <= discovery.failures.len(),
            decreases discovery.failures.len() - k,
        {
            let failure = &discovery.failures[k];
            record_failure(&connection, root, failure.path.as_ref(), failure.category.as_str())?;
            k += 1;
        }

        let upsert = document_upsert_statement();
        let mut discovered_paths: Vec<String> = Vec::new();
        let mut indexed: usize = 0;
        let mut unchanged: usize = 0;
        let mut failures: usize = discovery.failures.len();
        let ghost mut outcomes: Seq<FileOutcome> = Seq::empty();
        let ghost mut answers: Seq<i64> = Seq::empty();
        let mut i: usize = 0;
        while i < discovery.files.len()
            invariant
                i <= discovery.files.len(),
                discovery.files.len() + discovery.failures.len() <= usize::MAX,
                forall|j: usize|
                    j < discovery.files.len() ==> metadata.requires((j,)) && read.requires((j,)),
                outcomes.len() == i,
                answers.len() == i,
                forall|j: int|
                    0 <= j < i ==> outcome_fits(
                        metadata,
                        read,
                        discovery.files@[j].file_name@,
                        j as usize,
                        answers[j],
                        #[trigger] outcomes[j],
                    ),
                indexed == count_outcomes(outcomes, FileOutcome::Indexed),
                unchanged == count_outcomes(outcomes, FileOutcome::Unchanged),
                failures == discovery.failures.len() + count_outcomes(outcomes, FileOutcome::Failed),
                indexed + unchanged + (failures - discovery.failures.len()) == i,
                discovered_paths@.len() == i,
                forall|j: int| 0 <= j < i ==> discovered_paths@[j]@ == discovery.files@[j].path@,
            decreases discovery.files.len() - i,
        {
            let file = &discovery.files[i];
            discovered_paths.push(file.path.clone());
            let ghost outcome: FileOutcome;
            let ghost mut answer: i64 = 0;
            let current = metadata(i);
            match current {
                Err(e) => {
                    record_failure(&connection, root, Some(&file.path), error_category(&e))?;
                    failures += 1;
                    proof {
                        outcome = FileOutcome::Failed;
                    }
                },
                Ok((size, modified_ns)) => {
                    let (is_unchanged, found) = document_is_unchanged(
                        &connection,
                        &file.path,
                        size,
                        modified_ns,
                    )?;
                    proof {
                        answer = found@;
                    }
                    if is_unchanged {
                        unchanged += 1;
                        proof {
                            outcome = FileOutcome::Unchanged;
                        }
                    } else {
                        match extract_document(
                            file.file_name.as_str(),
                            file.path.as_str(),
                            metadata,
                            read,
                            i,
                        ) {
                            Ok(document) => {
                                let extension = extension_for_record(file.file_name.as_str());
                                let size = size_for_record(document.size);
                                database(
                                    db_execute(
                                        &connection,
                                        upsert.as_str(),
                                        (
                                            root,
                                            &file.path,
                                            &file.file_name,
                                            &extension,
                                            size,
                                            document.modified_ns,
                                            &document.fingerprint,
                                            &document.content,
                                        ),
                                    ),
                                )?;
                                indexed += 1;
                                proof {
                                    outcome = FileOutcome::Indexed;
                                }
                            },
                            Err(e) => {
                                record_failure(
                                    &connection,
                                    root,
                                    Some(&file.path),
                                    error_category(&e),
                                )?;
                                failures += 1;
                                proof {
                                    outcome = FileOutcome::Failed;
                                }
                            },
                        }
                    }
                },
            }
            proof {
                assert(outcome_fits(metadata, read, file.file_name@, i, answer, outcome));
                assert(outcomes.push(outcome).drop_last() =~= outcomes);
                outcomes = outcomes.push(outcome);
                answers = answers.push(answer);
            }
            i += 1;
        }

        let existing: Vec<(String,)> = database(
            db_query_rows(&connection, "SELECT path FROM documents WHERE root = ?1", (root,)),
        )?;
        let ghost stored = stored_paths_of(existing@);
        let removed = remove_stale_documents(&connection, existing, &discovered_paths)?;
        assert(views(discovered_paths@) =~= discovered_paths_of(discovery.files@));
        assert(removed == stale_paths_of(stored, discovered_paths_of(discovery.files@)).len());
        database(db_execute_batch(&connection, "COMMIT"))?;
        Ok(
            IndexReport {
                root: root.clone(),
                discovered: discovery.files.len(),
                indexed,
                unchanged,
                removed,
                failures,
            },
        )
    }

    /// Searches file names, paths and contents. Input that is empty after trimming gives
    /// no results; input of one or two characters is searched as a substring (see
    /// `collect_short_matches`); longer input is split into terms that are looked up as
    /// prefixes in the full-text index and kept only when every term matches (see
    /// `rank_lexical_rows`). At most `limit` results, between 1 and 100, are returned.
    pub fn search(&self, query: &str, limit: usize) -> (r: Result<Vec<SearchHit>, Error>)
        ensures
            r matches Err(e) ==> e is Database,
            trim_white_space(query@).len() == 0 ==> (r matches Ok(v) && v@.len() == 0),
            trim_white_space(query@).len() >= 3 && normalized_terms_of(query@).len() == 0 ==> (r matches Ok(
                v,
            ) && v@.len() == 0),
            match r {
                Ok(v) => {
                    &&& v@.len() <= result_limit(limit)
                    &&& (0 < trim_white_space(query@).len() < 3 ==> exists|
                        rows: Seq<ShortQueryRow>,
                    |
                        hit_views(v@) == prefix(
                            #[trigger] short_results(rows, trim_white_space(query@)),
                            result_limit(limit) as int,
                        ))
                    &&& (trim_white_space(query@).len() >= 3 ==> {
                        ||| (normalized_terms_of(query@).len() == 0 && v@.len() == 0)
                        ||| exists|rows: Seq<LexicalRow>|
                            hit_views(v@) == prefix(
                                #[trigger] lexical_results(rows, normalized_terms_of(query@)),
                                result_limit(limit) as int,
                            )
                    })
                },
                Err(_) => true,
            },
    {
        let characters = chars_of(query);
        let normalized = trim_chars(&characters);
        if normalized.len() == 0 {
            return Ok(Vec::new());
        }
        let safe_limit = clamp_limit(limit);
        if normalized.len() < 3 {
            let short_query = string_from(&normalized, 0, normalized.len());
            assert(normalized@.subrange(0, normalized@.len() as int) =~= normalized@);
            return self.search_short_query(short_query.as_str(), safe_limit);
        }
        let fts = match fts_query(query) {
            Some(q) => q,
            None => {
                return Ok(Vec::new());
            },
        };
        let terms = normalized_terms(query);
        let candidates = candidate_limit(safe_limit);
        let connection = self.connection()?;
        let rows: Vec<LexicalRow> = database(
            db_query_rows(
                &connection,
                "SELECT d.path, d.file_name, d.extension,
                    snippet(documents_fts, 2, '<mark>', '</mark>', ' ... ', 28),
                    bm25(documents_fts, 8, 2, 1), d.content
             FROM documents_fts
             JOIN documents d ON d.id = documents_fts.rowid
             WHERE documents_fts MATCH ?1
             ORDER BY 5 ASC, d.path ASC
             LIMIT ?2",
                (&fts, candidates),
            ),
        )?;
        let ghost all = rows@;
        let results = rank_lexical_rows(rows, &terms, safe_limit);
        proof {
            lemma_prefix_len(lexical_results(all, views(terms@)), safe_limit as int);
        }
        Ok(results)
    }

    /// Searches for a query of one or two characters as a substring of file names and
    /// contents, ignoring case, file-name matches first.
    fn search_short_query(&self, query: &str, limit: usize) -> (r: Result<Vec<SearchHit>, Error>)
        requires
            limit >= 1,
        ensures
            r matches Err(e) ==> e is Database,
            match r {
                Ok(v) => v@.len() <= limit && exists|rows: Seq<ShortQueryRow>|
                    hit_views(v@) == prefix(#[trigger] short_results(rows, query@), limit as int),
                Err(_) => true,
            },
    {
        let connection = self.connection()?;
        let rows: Vec<ShortQueryRow> = database(
            db_query_rows(
                &connection,
                "SELECT path, file_name, extension, content,
                    CASE WHEN instr(lower(file_name), lower(?1)) > 0 THEN 0 ELSE 1 END
             FROM documents
             WHERE instr(lower(file_name), lower(?1)) > 0
                OR instr(lower(content), lower(?1)) > 0
             ORDER BY 5 ASC, path ASC",
                (query,),
            ),
        )?;
        let ghost all = rows@;
        let results = collect_short_matches(rows, query, limit);
        proof {
            lemma_prefix_len(short_results(all, query@), limit as int);
        }
        Ok(results)
    }

    /// Whether meaning search is ready: the model is available (`model_available`, which
    /// the caller finds in the model cache) and every document with text has an
    /// embedding of the current model.
    pub fn semantic_status(&self, model_available: bool) -> (r: Result<SemanticStatus, Error>)
        ensures
            r matches Err(e) ==> e is Database,
            r matches Ok(status) ==> {
                &&& status.model_available == model_available
                &&& status.ready == semantic_ready(
                    model_available,
                    status.indexed_documents,
                    status.total_documents,
                )
                &&& status.model_name@ == SEMANTIC_MODEL_REPOSITORY@
                &&& status.download_bytes == SEMANTIC_MODEL_DOWNLOAD_BYTES
            },
    {
        let connection = self.connection()?;
        let total_documents = count(
            &connection,
            "SELECT count(*) FROM documents WHERE length(trim(content)) > 0",
        )?;
        let indexed_documents: i64 = database(
            db_query_value(
                &connection,
                "SELECT count(DISTINCT document_id) FROM semantic_chunks WHERE model = ?1",
                (SEMANTIC_INDEX_VERSION,),
            ),
        )?;
        Ok(status_from_counts(model_available, total_documents, indexed_documents))
    }

    /// The documents with text that have no embedding of the current model, by id,
    /// after removing the embeddings of other models.
    pub fn semantic_pending_documents(&self) -> (r: Result<Vec<(i64, String)>, Error>)
        ensures
            r matches Err(e) ==> e is Database,
    {
        let connection = self.connection()?;
        database(
            db_execute(
                &connection,
                "DELETE FROM semantic_chunks WHERE model <> ?1",
                (SEMANTIC_INDEX_VERSION,),
            ),
        )?;
        database(
            db_query_rows(
                &connection,
                "SELECT d.id, d.content
             FROM documents d
             WHERE length(trim(d.content)) > 0
               AND NOT EXISTS (
                   SELECT 1 FROM semantic_chunks s
                   WHERE s.document_id = d.id AND s.model = ?1
               )
             ORDER BY d.id",
                (SEMANTIC_INDEX_VERSION,),
            ),
        )
    }

    /// Stores, in one transaction, the embedding of each document of a batch: its id,
    /// the text that was embedded, and the embedding's bytes.
    pub fn store_semantic_chunks(&self, chunks: &Vec<(i64, String, Vec<u8>)>) -> (r: Result<
        (),
        Error,
    >)
        ensures
            r matches Err(e) ==> e is Database,
    {
        let connection = self.connection()?;
        database(db_execute_batch(&connection, "BEGIN DEFERRED"))?;
        let mut i: usize = 0;
        while i < chunks.len()
            invariant
                i <= chunks.len(),
            decreases chunks.len() - i,
        {
            let chunk = &chunks[i];
            database(
                db_execute(
                    &connection,
                    "DELETE FROM semantic_chunks WHERE document_id = ?1 AND model = ?2",
                    (chunk.0, SEMANTIC_INDEX_VERSION),
                ),
            )?;
            database(
                db_execute(
                    &connection,
                    "INSERT INTO semantic_chunks(document_id, chunk_index, content, embedding, model)
                     VALUES (?1, 0, ?2, ?3, ?4)",
                    (chunk.0, &chunk.1, &chunk.2, SEMANTIC_INDEX_VERSION),
                ),
            )?;
            i += 1;
        }
        database(db_execute_batch(&connection, "COMMIT"))?;
        Ok(())
    }

    /// The stored embeddings of the current model: path, file name and extension of
    /// the document, the embedded text, and the embedding's bytes, by path.
    pub fn semantic_chunks(&self) -> (r: Result<Vec<(String, String, String, String, Vec<u8>)>, Error>)
        ensures
            r matches Err(e) ==> e is Database,
    {
        let connection = self.connection()?;
        database(
            db_query_rows(
                &connection,
                "SELECT d.path, d.file_name, d.extension, s.content, s.embedding
             FROM semantic_chunks s
             JOIN documents d ON d.id = s.document_id
             WHERE s.model = ?1
             ORDER BY d.path, s.chunk_index",
                (SEMANTIC_INDEX_VERSION,),
            ),
        )
    }

    /// Removes a folder (given by its canonical path) with its documents and failures.
    pub fn remove_folder(&self, root: &str) -> (r: Result<(), Error>)
        ensures
            r matches Err(e) ==> e is Database,
    {
        database(
            db_execute(&self.connection()?, "DELETE FROM folders WHERE path = ?1", (root,)),
        )?;
        Ok(())
    }

    /// Removes every folder, document and failure from the index.
    pub fn clear(&self) -> (r: Result<(), Error>)
        ensures
            r matches Err(e) ==> e is Database,
    {
        let connection = self.connection()?;
        database(db_execute(&connection, "DELETE FROM folders", ()))?;
        database(db_execute(&connection, "DELETE FROM failures", ()))?;
        Ok(())
    }

    /// Whether a file (given by its canonical path) may be opened: only a file that the
    /// index holds may. `Err(NotIndexed)` when the index does not hold it.
    pub fn open_source(&self, canonical_path: &str) -> (r: Result<(), Error>)
        ensures
            r matches Err(e) ==> (e is NotIndexed || e is Database),
    {
        let indexed: i64 = database(
            db_query_value(
                &self.connection()?,
                "SELECT EXISTS(SELECT 1 FROM documents WHERE path = ?1)",
                (canonical_path,),
            ),
        )?;
        open_permission(indexed)
    }
}

proof fn lemma_prefix_len<A>(s: Seq<A>, n: int)
    requires
        0 <= n,
    ensures
        prefix(s, n).len() <= n,
        prefix(s, n).len() <= s.len(),
{
}

} // verus!
