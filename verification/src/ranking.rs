//! Turning the rows that the database returns for a query into ranked results.
use vstd::prelude::*;

use crate::excerpt::{highlighted_excerpt, highlighted_excerpt_of};
use crate::model::{HitScore, MatchType, SearchHit};
use crate::text::{
    ascii_lower, chars_of, find_chars, lemma_filter_empty, lemma_filter_push, lemma_find_from,
    occurs_at, to_ascii_lower,
};
use crate::terms::{
    all_terms_match, fields_match, fields_match_terms, text_matches, text_matches_all,
    text_matches_term, views,
};

verus! {

/// The most results a search returns.
pub const MAX_RESULTS: usize = 100;

/// The most candidate rows a keyword search reads from the full-text index.
pub const MAX_CANDIDATES: usize = 500;

/// A row of the full-text search: path, file name, extension, FTS5 snippet, BM25 rank
/// and content.
pub type LexicalRow = (String, String, String, String, rusqlite::types::Value, String);

/// A row of the substring search: path, file name, extension and content.
pub type ShortQueryRow = (String, String, String, String);

/// A result, viewed as text.
pub ghost struct HitView {
    pub path: Seq<char>,
    pub file_name: Seq<char>,
    pub extension: Seq<char>,
    pub snippet: Seq<char>,
    pub match_type: MatchType,
    pub score: HitScore,
}

impl View for SearchHit {
    type V = HitView;

    open spec fn view(&self) -> HitView {
        HitView {
            path: self.path@,
            file_name: self.file_name@,
            extension: self.extension@,
            snippet: self.snippet@,
            match_type: self.match_type,
            score: self.score,
        }
    }
}

/// The views of a list of results.
pub open spec fn hit_views(hits: Seq<SearchHit>) -> Seq<HitView> {
    hits.map_values(|h: SearchHit| h@)
}

/// The number of results a search may return for a requested `limit`: between 1 and 100.
pub open spec fn result_limit(limit: usize) -> usize {
    if limit < 1 {
        1
    } else if limit > MAX_RESULTS {
        MAX_RESULTS
    } else {
        limit
    }
}

/// A full-text row survives when every term matches its file name, path or content.
pub open spec fn lexical_row_kept(row: LexicalRow, terms: Seq<Seq<char>>) -> bool {
    fields_match(row.1@, row.0@, row.5@, terms)
}

/// A surviving full-text row matches by file name when every term matches its file name.
pub open spec fn lexical_row_by_name(row: LexicalRow, terms: Seq<Seq<char>>) -> bool {
    all_terms_match(row.1@, terms)
}

/// The result for a full-text row.
pub open spec fn lexical_hit(row: LexicalRow, terms: Seq<Seq<char>>) -> HitView {
    HitView {
        path: row.0@,
        file_name: row.1@,
        extension: row.2@,
        snippet: row.3@,
        match_type: if lexical_row_by_name(row, terms) {
            MatchType::Filename
        } else {
            MatchType::Content
        },
        score: HitScore::Bm25(row.4),
    }
}

/// The rows that survive and match by file name, in the order of the database.
pub open spec fn name_rows(rows: Seq<LexicalRow>, terms: Seq<Seq<char>>) -> Seq<LexicalRow> {
    rows.filter(|r: LexicalRow| lexical_row_kept(r, terms) && lexical_row_by_name(r, terms))
}

/// The rows that survive and match only by path or content, in the order of the database.
pub open spec fn content_rows(rows: Seq<LexicalRow>, terms: Seq<Seq<char>>) -> Seq<LexicalRow> {
    rows.filter(|r: LexicalRow| lexical_row_kept(r, terms) && !lexical_row_by_name(r, terms))
}

/// The results of a keyword search for the rows of the full-text index, which come
/// ordered by rank: the surviving rows that match by file name first, then the
/// others, each group in rank order.
pub open spec fn lexical_results(rows: Seq<LexicalRow>, terms: Seq<Seq<char>>) -> Seq<HitView> {
    name_rows(rows, terms).map_values(|r: LexicalRow| lexical_hit(r, terms)) + content_rows(
        rows,
        terms,
    ).map_values(|r: LexicalRow| lexical_hit(r, terms))
}

/// A substring-search row survives when the query matches its file name or content.
pub open spec fn short_row_kept(row: ShortQueryRow, query: Seq<char>) -> bool {
    text_matches(row.1@, query) || text_matches(row.3@, query)
}

/// The result for a surviving substring-search row: a file-name match ranks in tier 0,
/// a content match in tier 1; the snippet highlights the query in the content.
pub open spec fn short_hit(row: ShortQueryRow, query: Seq<char>) -> HitView {
    let by_name = text_matches(row.1@, query);
    HitView {
        path: row.0@,
        file_name: row.1@,
        extension: row.2@,
        snippet: highlighted_excerpt_of(row.3@, query),
        match_type: if by_name {
            MatchType::Filename
        } else {
            MatchType::Content
        },
        score: HitScore::Tier(
            if by_name {
                0
            } else {
                1
            },
        ),
    }
}

/// The query occurs in the file name, ignoring ASCII case: the first rank tier of a
/// substring search (`instr(lower(file_name), lower(query)) > 0` in SQLite).
pub open spec fn name_holds_query(file_name: Seq<char>, query: Seq<char>) -> bool {
    exists|i: int| occurs_at(ascii_lower(file_name), ascii_lower(query), i)
}

/// The surviving substring-search rows of the first tier, in the order of the database.
pub open spec fn short_first_rows(rows: Seq<ShortQueryRow>, query: Seq<char>) -> Seq<ShortQueryRow> {
    rows.filter(|r: ShortQueryRow| short_row_kept(r, query) && name_holds_query(r.1@, query))
}

/// The surviving substring-search rows of the second tier, in the order of the database.
pub open spec fn short_later_rows(rows: Seq<ShortQueryRow>, query: Seq<char>) -> Seq<ShortQueryRow> {
    rows.filter(|r: ShortQueryRow| short_row_kept(r, query) && !name_holds_query(r.1@, query))
}

/// The results of a substring search: the surviving rows whose file name holds the
/// query first, then the others, each group in the order of the database.
pub open spec fn short_results(rows: Seq<ShortQueryRow>, query: Seq<char>) -> Seq<HitView> {
    short_first_rows(rows, query).map_values(|r: ShortQueryRow| short_hit(r, query))
        + short_later_rows(rows, query).map_values(|r: ShortQueryRow| short_hit(r, query))
}

/// The first `n` elements of `s`, or all of them.
pub open spec fn prefix<A>(s: Seq<A>, n: int) -> Seq<A> {
    if n < s.len() {
        s.take(n)
    } else {
        s
    }
}



/// The number of results a search may return (see `result_limit`).
pub fn clamp_limit(limit: usize) -> (r: usize)
    ensures
        r == result_limit(limit),
        1 <= r <= MAX_RESULTS,
{
    if limit < 1 {
        1
    } else if limit > MAX_RESULTS {
        MAX_RESULTS
    } else {
        limit
    }
}

/// How many results of each kind a combined keyword and meaning search gathers before
/// fusing them for `limit` results: four per result, at most `MAX_RESULTS`.
pub open spec fn hybrid_candidates_for(limit: usize) -> int {
    if 4 * result_limit(limit) > MAX_RESULTS {
        MAX_RESULTS as int
    } else {
        4 * result_limit(limit)
    }
}

/// How many results of each kind a combined search gathers for `limit` results.
pub fn hybrid_candidate_limit(limit: usize) -> (r: usize)
    ensures
        r == hybrid_candidates_for(limit),
{
    let safe_limit = clamp_limit(limit);
    if safe_limit > MAX_RESULTS / 4 {
        MAX_RESULTS
    } else {
        safe_limit * 4
    }
}

/// The results of a keyword search for the rows of the full-text index, given in rank
/// order: file-name matches first, then the others, at most `limit` of them.
pub fn rank_lexical_rows(rows: Vec<LexicalRow>, terms: &Vec<String>, limit: usize) -> (r: Vec<SearchHit>)
    ensures
        hit_views(r@) == prefix(lexical_results(rows@, views(terms@)), limit as int),
{
    let ghost t = views(terms@);
    let ghost all = rows@;
    let ghost by_name = |r: LexicalRow| lexical_row_kept(r, t) && lexical_row_by_name(r, t);
    let ghost by_content = |r: LexicalRow| lexical_row_kept(r, t) && !lexical_row_by_name(r, t);
    let ghost as_hit = |r: LexicalRow| lexical_hit(r, t);
    let mut filename_hits: Vec<SearchHit> = Vec::new();
    let mut content_hits: Vec<SearchHit> = Vec::new();
    proof {
        lemma_filter_empty(Seq::<LexicalRow>::empty(), by_name);
        lemma_filter_empty(Seq::<LexicalRow>::empty(), by_content);
        assert(all.take(0) =~= Seq::<LexicalRow>::empty());
        assert(hit_views(filename_hits@) =~= Seq::<HitView>::empty());
        assert(Seq::<LexicalRow>::empty().map_values(as_hit) =~= Seq::<HitView>::empty());
    }
    for row in it: rows
        invariant
            it.seq() == all,
            t == views(terms@),
            by_name == (|r: LexicalRow| lexical_row_kept(r, t) && lexical_row_by_name(r, t)),
            by_content == (|r: LexicalRow| lexical_row_kept(r, t) && !lexical_row_by_name(r, t)),
            as_hit == (|r: LexicalRow| lexical_hit(r, t)),
            hit_views(filename_hits@) == all.take(it.index() as int).filter(by_name).map_values(
                as_hit,
            ),
            hit_views(content_hits@) == all.take(it.index() as int).filter(by_content).map_values(
                as_hit,
            ),
    {
        let ghost i = it.index();
        let ghost old_row = row;
        proof {
            assert(all.take(i + 1) =~= all.take(i as int).push(row));
            lemma_filter_push(all.take(i as int), row, by_name);
            lemma_filter_push(all.take(i as int), row, by_content);
        }
        let (path, file_name, extension, snippet, score, content) = row;
        if fields_match_terms(file_name.as_str(), path.as_str(), content.as_str(), terms) {
            let filename_match = text_matches_all(file_name.as_str(), terms);
            let hit = SearchHit {
                path,
                file_name,
                extension,
                snippet,
                match_type: if filename_match {
                    MatchType::Filename
                } else {
                    MatchType::Content
                },
                score: HitScore::Bm25(score),
            };
            assert(hit@ == lexical_hit(old_row, t));
            if filename_match {
                let ghost before = filename_hits@;
                filename_hits.push(hit);
                assert(by_name(old_row));
                assert(all.take(i + 1).filter(by_name) == all.take(i as int).filter(by_name).push(old_row));
                assert(hit_views(filename_hits@) =~= hit_views(before).push(as_hit(old_row)));
                assert(hit_views(filename_hits@) =~= all.take(i + 1).filter(by_name).map_values(
                    as_hit,
                ));
                assert(all.take(i + 1).filter(by_content) == all.take(i as int).filter(by_content));
            } else {
                let ghost before = content_hits@;
                content_hits.push(hit);
                assert(by_content(old_row));
                assert(all.take(i + 1).filter(by_content) == all.take(i as int).filter(
                    by_content,
                ).push(old_row));
                assert(hit_views(content_hits@) =~= hit_views(before).push(as_hit(old_row)));
                assert(hit_views(content_hits@) =~= all.take(i + 1).filter(by_content).map_values(
                    as_hit,
                ));
                assert(all.take(i + 1).filter(by_name) == all.take(i as int).filter(by_name));
            }
        }
    }
    proof {
        assert(all.take(all.len() as int) =~= all);
    }
    let ghost front = hit_views(filename_hits@);
    let ghost back = hit_views(content_hits@);
    filename_hits.append(&mut content_hits);
    assert(hit_views(filename_hits@) =~= front + back);
    assert(name_rows(all, t) == all.filter(by_name));
    assert(content_rows(all, t) == all.filter(by_content));
    assert(lexical_results(all, t) =~= front + back);
    if filename_hits.len() > limit {
        filename_hits.truncate(limit);
        assert(hit_views(filename_hits@) =~= (front + back).take(limit as int));
    }
    filename_hits
}

/// Whether the query occurs in the file name, ignoring ASCII case.
pub fn file_name_holds_query(file_name: &str, query: &str) -> (r: bool)
    ensures
        r == name_holds_query(file_name@, query@),
{
    let name = to_ascii_lower(&chars_of(file_name));
    let pattern = to_ascii_lower(&chars_of(query));
    let found = find_chars(&name, &pattern, 0);
    proof {
        lemma_find_from(name@, pattern@, 0);
    }
    found.is_some()
}

/// The results of a substring search for the rows of the database: the rows whose file
/// name or content matches the query, those whose file name holds the query first, at
/// most `limit` of them, each with the query highlighted in its content.
pub fn collect_short_matches(rows: Vec<ShortQueryRow>, query: &str, limit: usize) -> (r: Vec<
    SearchHit,
>)
    requires
        limit >= 1,
    ensures
        hit_views(r@) == prefix(short_results(rows@, query@), limit as int),
{
    let ghost q = query@;
    let ghost all = rows@;
    let ghost first = |r: ShortQueryRow| short_row_kept(r, q) && name_holds_query(r.1@, q);
    let ghost later = |r: ShortQueryRow| short_row_kept(r, q) && !name_holds_query(r.1@, q);
    let ghost as_hit = |r: ShortQueryRow| short_hit(r, q);
    let mut first_hits: Vec<SearchHit> = Vec::new();
    let mut later_hits: Vec<SearchHit> = Vec::new();
    proof {
        lemma_filter_empty(Seq::<ShortQueryRow>::empty(), first);
        lemma_filter_empty(Seq::<ShortQueryRow>::empty(), later);
        assert(all.take(0) =~= Seq::<ShortQueryRow>::empty());
        assert(hit_views(first_hits@) =~= Seq::<HitView>::empty());
        assert(Seq::<ShortQueryRow>::empty().map_values(as_hit) =~= Seq::<HitView>::empty());
    }
    assert(all.take(all.len() as int) =~= all);
    for row in it: rows
        invariant_except_break
            hit_views(first_hits@) == all.take(it.index() as int).filter(first).map_values(as_hit),
            hit_views(later_hits@) == all.take(it.index() as int).filter(later).map_values(as_hit),
            first_hits@.len() < limit,
        invariant
            it.seq() == all,
            q == query@,
            first == (|r: ShortQueryRow| short_row_kept(r, q) && name_holds_query(r.1@, q)),
            later == (|r: ShortQueryRow| short_row_kept(r, q) && !name_holds_query(r.1@, q)),
            as_hit == (|r: ShortQueryRow| short_hit(r, q)),
            all.take(all.len() as int) == all,
            limit > 0,
        ensures
            first_hits@.len() >= limit ==> hit_views(first_hits@) == prefix(
                all.filter(first).map_values(as_hit),
                limit as int,
            ),
            first_hits@.len() < limit ==> {
                &&& hit_views(first_hits@) == all.filter(first).map_values(as_hit)
                &&& hit_views(later_hits@) == all.filter(later).map_values(as_hit)
            },
    {
        let ghost i = it.index();
        let ghost old_row = row;
        proof {
            assert(all.take(i + 1) =~= all.take(i as int).push(row));
            lemma_filter_push(all.take(i as int), row, first);
            lemma_filter_push(all.take(i as int), row, later);
        }
        let (path, file_name, extension, content) = row;
        let filename_match = text_matches_term(file_name.as_str(), query);
        if filename_match || text_matches_term(content.as_str(), query) {
            let in_first_tier = file_name_holds_query(file_name.as_str(), query);
            let snippet = highlighted_excerpt(content.as_str(), query);
            let hit = SearchHit {
                path,
                file_name,
                extension,
                snippet,
                match_type: if filename_match {
                    MatchType::Filename
                } else {
                    MatchType::Content
                },
                score: HitScore::Tier(
                    if filename_match {
                        0
                    } else {
                        1
                    },
                ),
            };
            assert(hit@ == short_hit(old_row, q));
            if in_first_tier {
                let ghost before = first_hits@;
                first_hits.push(hit);
                assert(first(old_row));
                assert(all.take(i + 1).filter(first) == all.take(i as int).filter(first).push(
                    old_row,
                ));
                assert(hit_views(first_hits@) =~= hit_views(before).push(as_hit(old_row)));
                assert(hit_views(first_hits@) =~= all.take(i + 1).filter(first).map_values(as_hit));
                assert(all.take(i + 1).filter(later) == all.take(i as int).filter(later));
                if first_hits.len() >= limit {
                    proof {
                        lemma_prefix_of_filter(all, i + 1, first, as_hit, limit as int);
                    }
                    break;
                }
            } else {
                let ghost before = later_hits@;
                later_hits.push(hit);
                assert(later(old_row));
                assert(all.take(i + 1).filter(later) == all.take(i as int).filter(later).push(
                    old_row,
                ));
                assert(hit_views(later_hits@) =~= hit_views(before).push(as_hit(old_row)));
                assert(hit_views(later_hits@) =~= all.take(i + 1).filter(later).map_values(as_hit));
                assert(all.take(i + 1).filter(first) == all.take(i as int).filter(first));
            }
        } else {
            assert(!first(old_row) && !later(old_row));
        }
    }
    let ghost front = all.filter(first).map_values(as_hit);
    let ghost back = all.filter(later).map_values(as_hit);
    assert(short_first_rows(all, q) == all.filter(first));
    assert(short_later_rows(all, q) == all.filter(later));
    assert(short_results(all, q) =~= front + back);
    if first_hits.len() >= limit {
        assert(prefix(front + back, limit as int) =~= prefix(front, limit as int));
        return first_hits;
    }
    let ghost a = hit_views(first_hits@);
    let ghost b = hit_views(later_hits@);
    first_hits.append(&mut later_hits);
    assert(hit_views(first_hits@) =~= a + b);
    if first_hits.len() > limit {
        first_hits.truncate(limit);
        assert(hit_views(first_hits@) =~= (a + b).take(limit as int));
    }
    first_hits
}

/// When the first `n` elements of `s` already keep `limit` elements, the first `limit`
/// kept elements of `s` are those.
pub(crate) proof fn lemma_prefix_of_filter<A, B>(
    s: Seq<A>,
    n: int,
    pred: spec_fn(A) -> bool,
    f: spec_fn(A) -> B,
    limit: int,
)
    requires
        0 <= n <= s.len(),
        s.take(n).filter(pred).len() == limit,
    ensures
        prefix(s.filter(pred).map_values(f), limit) == s.take(n).filter(pred).map_values(f),
{
    assert(s =~= s.take(n) + s.skip(n));
    broadcast use vstd::seq_lib::group_seq_properties;
    Seq::filter_distributes_over_add(s.take(n), s.skip(n), pred);
    assert(s.filter(pred).map_values(f) =~= s.take(n).filter(pred).map_values(f) + s.skip(
        n,
    ).filter(pred).map_values(f));
    assert(s.filter(pred).map_values(f).take(limit) =~= s.take(n).filter(pred).map_values(f));
}

} // verus!
