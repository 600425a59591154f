//! Properties that hold of the index's rules for every input.
use vstd::prelude::*;
use vstd::utf8::is_ascii_chars;

use crate::discovery::{is_supported_name, last_dot, visits};
use crate::excerpt::{
    document_summary_of, highlighted_excerpt_of, mark_close, mark_open, semantic_excerpt_of,
    SEMANTIC_EXCERPT_CHARS, SUMMARY_SAMPLE_CHARS,
};
use crate::index::{document_upsert_sql, stale_paths_of};
use crate::ranking::{
    content_rows, lexical_hit, lexical_results, lexical_row_by_name, lexical_row_kept, name_rows,
    name_holds_query, prefix, short_first_rows, short_hit, short_later_rows, short_results,
    short_row_kept, LexicalRow, ShortQueryRow,
};
use crate::model::{fused_match_type_of, HitScore, MatchType};
use crate::terms::{
    all_terms_match, escape_quotes, prefix_phrase, clean_term, keeps_term_char, normalized_terms_of, text_matches, whitespace_words,
    split_scan, word_start, word_start_match_from,
};
use crate::text::{
    ascii_lower, ascii_lower_char, find_from, is_ascii_alnum, is_white_space, lemma_filter_empty,
    lemma_filter_push, occurs_at,
};

verus! {

proof fn lemma_filter_all<A>(s: Seq<A>, pred: spec_fn(A) -> bool)
    ensures
        forall|i: int| 0 <= i < s.filter(pred).len() ==> pred(#[trigger] s.filter(pred)[i]),
        forall|i: int| 0 <= i < s.filter(pred).len() ==> s.contains(#[trigger] s.filter(pred)[i]),
    decreases s.len(),
{
    reveal(Seq::filter);
    if s.len() > 0 {
        lemma_filter_all(s.drop_last(), pred);
        assert forall|i: int| 0 <= i < s.filter(pred).len() implies s.contains(
            #[trigger] s.filter(pred)[i],
        ) by {
            if i < s.drop_last().filter(pred).len() {
                let x = s.drop_last().filter(pred)[i];
                assert(s.drop_last().contains(x));
                let j = choose|j: int| 0 <= j < s.drop_last().len() && s.drop_last()[j] == x;
                assert(s[j] == x);
            } else {
                assert(s[s.len() - 1] == s.filter(pred)[i]);
            }
        }
    }
}

/// Every search term is non-empty and made only of letters, digits, `_` and `-`; in
/// particular no term holds white space or a double quote.
pub proof fn law_terms_are_clean(query: Seq<char>)
    ensures
        forall|i: int|
            0 <= i < normalized_terms_of(query).len() ==> {
                &&& (#[trigger] normalized_terms_of(query)[i]).len() > 0
                &&& forall|j: int|
                    0 <= j < normalized_terms_of(query)[i].len() ==> keeps_term_char(
                        #[trigger] normalized_terms_of(query)[i][j],
                    )
            },
{
    let cleaned = whitespace_words(query).map_values(|w: Seq<char>| clean_term(w));
    let nonempty = |t: Seq<char>| t.len() > 0;
    lemma_filter_all(cleaned, nonempty);
    assert forall|i: int| 0 <= i < normalized_terms_of(query).len() implies {
        &&& (#[trigger] normalized_terms_of(query)[i]).len() > 0
        &&& forall|j: int|
            0 <= j < normalized_terms_of(query)[i].len() ==> keeps_term_char(
                #[trigger] normalized_terms_of(query)[i][j],
            )
    } by {
        let t = normalized_terms_of(query)[i];
        assert(cleaned.filter(nonempty)[i] == t);
        assert(cleaned.contains(t));
        let k = choose|k: int| 0 <= k < cleaned.len() && cleaned[k] == t;
        let w = whitespace_words(query)[k];
        assert(t == clean_term(w));
        lemma_filter_all(w, |c: char| keeps_term_char(c));
    }
}

proof fn lemma_ascii_lower_idempotent(s: Seq<char>)
    ensures
        ascii_lower(ascii_lower(s)) == ascii_lower(s),
{
    assert(ascii_lower(ascii_lower(s)) =~= ascii_lower(s));
}

proof fn lemma_word_start_lowered(text: Seq<char>, i: int)
    requires
        0 <= i <= text.len(),
    ensures
        word_start(ascii_lower(text), i) == word_start(text, i),
{
    if i > 0 {
        let c = text[i - 1];
        assert(ascii_lower(text)[i - 1] == ascii_lower_char(c));
        assert(is_ascii_alnum(ascii_lower_char(c)) == is_ascii_alnum(c));
    }
}

proof fn lemma_scan_lowered(lowered: Seq<char>, text: Seq<char>, pattern: Seq<char>, pos: int)
    requires
        lowered.len() == text.len(),
    ensures
        word_start_match_from(lowered, ascii_lower(text), pattern, pos) == word_start_match_from(
            lowered,
            text,
            pattern,
            pos,
        ),
    decreases lowered.len() - pos,
{
    if pattern.len() == 0 || pos < 0 || pos + pattern.len() > lowered.len() {
    } else if occurs_at(lowered, pattern, pos) {
        lemma_word_start_lowered(text, pos);
        lemma_scan_lowered(lowered, text, pattern, pos + pattern.len());
    } else {
        lemma_scan_lowered(lowered, text, pattern, pos + 1);
    }
}

/// Matching an ASCII term ignores ASCII case: lowering the ASCII letters of the text
/// and of the term changes nothing.
pub proof fn law_ascii_matching_ignores_case(text: Seq<char>, term: Seq<char>)
    requires
        is_ascii_chars(term),
    ensures
        text_matches(ascii_lower(text), ascii_lower(term)) == text_matches(text, term),
{
    lemma_ascii_lower_idempotent(text);
    lemma_ascii_lower_idempotent(term);
    assert(is_ascii_chars(ascii_lower(term)));
    lemma_scan_lowered(ascii_lower(text), text, ascii_lower(term), 0);
}

proof fn lemma_scan_sound(lowered: Seq<char>, text: Seq<char>, pattern: Seq<char>, pos: int)
    requires
        word_start_match_from(lowered, text, pattern, pos),
    ensures
        exists|i: int| pos <= i && occurs_at(lowered, pattern, i) && word_start(text, i),
    decreases lowered.len() - pos,
{
    if pattern.len() == 0 || pos < 0 || pos + pattern.len() > lowered.len() {
    } else if occurs_at(lowered, pattern, pos) {
        if !word_start(text, pos) {
            lemma_scan_sound(lowered, text, pattern, pos + pattern.len());
        }
    } else {
        lemma_scan_sound(lowered, text, pattern, pos + 1);
    }
}

proof fn lemma_scan_finds_first(lowered: Seq<char>, text: Seq<char>, pattern: Seq<char>, pos: int, i: int)
    requires
        pattern.len() > 0,
        0 <= pos <= i,
        occurs_at(lowered, pattern, i),
        word_start(text, i),
        forall|j: int| pos <= j < i ==> !occurs_at(lowered, pattern, j),
    ensures
        word_start_match_from(lowered, text, pattern, pos),
    decreases i - pos,
{
    if pos < i {
        lemma_scan_finds_first(lowered, text, pattern, pos + 1, i);
    }
}

/// An ASCII term matches only at the start of a word: where it matches, it occurs
/// (ignoring ASCII case) at a position that is the start of the text or follows a
/// character that is not an ASCII letter or digit; and where its first occurrence is
/// at such a position, it matches.
pub proof fn law_ascii_terms_match_word_starts(text: Seq<char>, term: Seq<char>)
    requires
        is_ascii_chars(term),
        term.len() > 0,
    ensures
        text_matches(text, term) ==> exists|i: int|
            occurs_at(ascii_lower(text), ascii_lower(term), i) && word_start(text, i),
        find_from(ascii_lower(text), ascii_lower(term), 0) matches Some(i) && word_start(text, i)
            ==> text_matches(text, term),
{
    if text_matches(text, term) {
        lemma_scan_sound(ascii_lower(text), text, ascii_lower(term), 0);
    }
    crate::text::lemma_find_from(ascii_lower(text), ascii_lower(term), 0);
    if let Some(i) = find_from(ascii_lower(text), ascii_lower(term), 0) {
        if word_start(text, i) {
            lemma_scan_finds_first(ascii_lower(text), text, ascii_lower(term), 0, i);
        }
    }
}

/// A meaning-search snippet starts with the content, holds at most its first 280
/// characters and four more (` ...`), and is the whole content when that is short.
pub proof fn law_semantic_excerpt_is_a_prefix(content: Seq<char>)
    ensures
        semantic_excerpt_of(content).len() <= SEMANTIC_EXCERPT_CHARS + 4,
        content.len() <= SEMANTIC_EXCERPT_CHARS ==> semantic_excerpt_of(content) == content,
        content.len() > SEMANTIC_EXCERPT_CHARS ==> semantic_excerpt_of(content).take(
            SEMANTIC_EXCERPT_CHARS as int,
        ) == content.take(SEMANTIC_EXCERPT_CHARS as int),
{
    if content.len() > SEMANTIC_EXCERPT_CHARS {
        assert(semantic_excerpt_of(content).take(SEMANTIC_EXCERPT_CHARS as int) =~= content.take(
            SEMANTIC_EXCERPT_CHARS as int,
        ));
    }
}

/// The text embedded for a document is the document itself when it has at most 720
/// characters; a longer document is summarised by 726 characters that start with its
/// first 240 characters, hold its middle 240 and end with its last 240, which is
/// shorter than the document once it has more than 726 characters.
pub proof fn law_summary_samples_the_whole_document(content: Seq<char>)
    ensures
        content.len() <= 3 * SUMMARY_SAMPLE_CHARS ==> document_summary_of(content) == content,
        content.len() > 3 * SUMMARY_SAMPLE_CHARS ==> {
            let summary = document_summary_of(content);
            let n = content.len() as int;
            let middle = n / 2 - SUMMARY_SAMPLE_CHARS as int / 2;
            &&& summary.len() == 3 * SUMMARY_SAMPLE_CHARS + 6
            &&& (content.len() > 3 * SUMMARY_SAMPLE_CHARS + 6 ==> summary.len() < content.len())
            &&& summary.take(SUMMARY_SAMPLE_CHARS as int) == content.take(
                SUMMARY_SAMPLE_CHARS as int,
            )
            &&& summary.subrange(243, 483) == content.subrange(middle, middle + 240)
            &&& summary.skip(summary.len() - SUMMARY_SAMPLE_CHARS) == content.skip(
                n - SUMMARY_SAMPLE_CHARS,
            )
        },
{
    if content.len() > 3 * SUMMARY_SAMPLE_CHARS {
        let summary = document_summary_of(content);
        let n = content.len() as int;
        let middle = n / 2 - SUMMARY_SAMPLE_CHARS as int / 2;
        assert(summary.take(240) =~= content.take(240));
        assert(summary.subrange(243, 483) =~= content.subrange(middle, middle + 240));
        assert(summary.skip(summary.len() - 240) =~= content.skip(n - 240));
    }
}

/// When the query occurs in the content as typed, the short-query snippet holds it
/// between `<mark>` and `</mark>`.
pub proof fn law_snippet_marks_the_query(content: Seq<char>, query: Seq<char>)
    requires
        find_from(content, query, 0) is Some,
    ensures
        exists|k: int|
            0 <= k && k + query.len() + 13 <= highlighted_excerpt_of(content, query).len()
                && #[trigger] highlighted_excerpt_of(content, query).subrange(
                k,
                k + query.len() + 13,
            ) == mark_open() + query + mark_close(),
{
    crate::text::lemma_find_from(content, query, 0);
    let start = find_from(content, query, 0)->0;
    let excerpt_start = if start >= 36 {
        start - 36
    } else {
        0
    };
    let head = (if excerpt_start > 0 {
        crate::excerpt::leading_ellipsis()
    } else {
        seq![]
    }) + content.subrange(excerpt_start, start);
    let k = head.len() as int;
    let out = highlighted_excerpt_of(content, query);
    assert(content.subrange(start, start + query.len()) == query);
    assert(out.subrange(k, k + query.len() + 13) =~= mark_open() + query + mark_close());
}

proof fn lemma_last_dot_lowered(s: Seq<char>)
    ensures
        last_dot(ascii_lower(s)) == last_dot(s),
    decreases s.len(),
{
    if s.len() > 0 {
        assert(ascii_lower(s).drop_last() =~= ascii_lower(s.drop_last()));
        lemma_last_dot_lowered(s.drop_last());
    }
}

proof fn lemma_last_dot_range(s: Seq<char>)
    ensures
        last_dot(s) matches Some(i) ==> 0 <= i < s.len() && s[i] == '.',
    decreases s.len(),
{
    if s.len() > 0 {
        lemma_last_dot_range(s.drop_last());
    }
}

/// Whether a file is indexed does not depend on the ASCII case of its name:
/// `notes.MD` is indexed as `notes.md` is.
pub proof fn law_supported_names_ignore_ascii_case(file_name: Seq<char>)
    ensures
        is_supported_name(ascii_lower(file_name)) == is_supported_name(file_name),
{
    lemma_last_dot_lowered(file_name);
    lemma_ascii_lower_idempotent(file_name);
    if file_name == seq!['.', '.'] {
        assert(ascii_lower(file_name) =~= seq!['.', '.']);
    } else if ascii_lower(file_name) == seq!['.', '.'] {
        assert(file_name.len() == 2);
        assert(ascii_lower(file_name)[0] == ascii_lower_char(file_name[0]));
        assert(ascii_lower(file_name)[1] == ascii_lower_char(file_name[1]));
        assert(file_name[0] == '.' && file_name[1] == '.');
        assert(file_name =~= seq!['.', '.']);
    }
    lemma_last_dot_range(file_name);
    if let Some(i) = last_dot(file_name) {
        if i != 0 {
            let e = file_name.subrange(i + 1, file_name.len() as int);
            assert(ascii_lower(file_name).subrange(i + 1, file_name.len() as int) =~= ascii_lower(
                e,
            ));
            lemma_ascii_lower_idempotent(e);
        }
    }
}

/// Excluding folders does not depend on the ASCII case of their names: `Node_Modules`
/// is skipped as `node_modules` is; files and the root folder are always entered.
pub proof fn law_walk_ignores_ascii_case(is_dir: bool, depth: usize, name: Seq<char>)
    ensures
        visits(is_dir, depth, ascii_lower(name)) == visits(is_dir, depth, name),
        !is_dir ==> visits(is_dir, depth, name),
        depth == 0 ==> visits(is_dir, depth, name),
{
    lemma_ascii_lower_idempotent(name);
}

/// Reindexing a folder removes exactly the documents it held whose files the walk
/// no longer found.
pub proof fn law_stale_paths_are_exactly_the_vanished(
    existing: Seq<Seq<char>>,
    discovered: Seq<Seq<char>>,
    path: Seq<char>,
)
    ensures
        stale_paths_of(existing, discovered).contains(path) <==> (existing.contains(path)
            && !discovered.contains(path)),
{
    let pred = |p: Seq<char>| !discovered.contains(p);
    lemma_filter_all(existing, pred);
    if existing.contains(path) && !discovered.contains(path) {
        let i = choose|i: int| 0 <= i < existing.len() && existing[i] == path;
        existing.lemma_filter_contains(pred, i);
    }
    if stale_paths_of(existing, discovered).contains(path) {
        let i = choose|i: int|
            0 <= i < stale_paths_of(existing, discovered).len() && stale_paths_of(
                existing,
                discovered,
            )[i] == path;
        assert(pred(stale_paths_of(existing, discovered)[i]));
    }
}

/// In keyword results, file-name matches come before the others; every result comes
/// from a row of the full-text index in which every term matches the file name, the
/// path or the content; and a result is a file-name match exactly when every term
/// matches its file name.
pub proof fn law_keyword_results_are_matches_name_first(
    rows: Seq<LexicalRow>,
    terms: Seq<Seq<char>>,
    limit: int,
)
    requires
        0 <= limit,
    ensures
        forall|i: int, j: int|
            0 <= i < j < prefix(lexical_results(rows, terms), limit).len() && (#[trigger] prefix(
                lexical_results(rows, terms),
                limit,
            )[j]).match_type == MatchType::Filename ==> (#[trigger] prefix(
                lexical_results(rows, terms),
                limit,
            )[i]).match_type == MatchType::Filename,
        forall|i: int|
            0 <= i < prefix(lexical_results(rows, terms), limit).len() ==> exists|r: LexicalRow|
                rows.contains(r) && lexical_row_kept(r, terms) && #[trigger] prefix(
                    lexical_results(rows, terms),
                    limit,
                )[i] == lexical_hit(r, terms),
        forall|i: int|
            0 <= i < prefix(lexical_results(rows, terms), limit).len() ==> ((#[trigger] prefix(
                lexical_results(rows, terms),
                limit,
            )[i]).match_type == MatchType::Filename <==> all_terms_match(
                prefix(lexical_results(rows, terms), limit)[i].file_name,
                terms,
            )),
{
    let by_name = |r: LexicalRow| lexical_row_kept(r, terms) && lexical_row_by_name(r, terms);
    let by_content = |r: LexicalRow| lexical_row_kept(r, terms) && !lexical_row_by_name(r, terms);
    let as_hit = |r: LexicalRow| lexical_hit(r, terms);
    lemma_filter_all(rows, by_name);
    lemma_filter_all(rows, by_content);
    let a = name_rows(rows, terms);
    let b = content_rows(rows, terms);
    assert(a == rows.filter(by_name));
    assert(b == rows.filter(by_content));
    let all = lexical_results(rows, terms);
    let p = prefix(all, limit);
    assert(all =~= a.map_values(as_hit) + b.map_values(as_hit));
    assert forall|i: int| 0 <= i < p.len() implies exists|r: LexicalRow|
        rows.contains(r) && lexical_row_kept(r, terms) && #[trigger] p[i] == lexical_hit(
            r,
            terms,
        ) by {
        assert(p[i] == all[i]);
        if i < a.len() {
            assert(by_name(a[i]));
            assert(rows.contains(a[i]));
            assert(all[i] == lexical_hit(a[i], terms));
        } else {
            let k = i - a.len();
            assert(by_content(b[k]));
            assert(rows.contains(b[k]));
            assert(all[i] == lexical_hit(b[k], terms));
        }
    }
    assert forall|i: int, j: int|
        0 <= i < j < p.len() && (#[trigger] p[j]).match_type == MatchType::Filename implies (
        #[trigger] p[i]).match_type == MatchType::Filename by {
        assert(p[i] == all[i] && p[j] == all[j]);
        if j >= a.len() {
            let k = j - a.len();
            assert(by_content(b[k]));
            assert(all[j] == lexical_hit(b[k], terms));
        }
        assert(i < a.len());
        assert(by_name(a[i]));
        assert(all[i] == lexical_hit(a[i], terms));
    }
    assert forall|i: int| 0 <= i < p.len() implies ((#[trigger] p[i]).match_type
        == MatchType::Filename <==> all_terms_match(p[i].file_name, terms)) by {
        let r = choose|r: LexicalRow|
            rows.contains(r) && lexical_row_kept(r, terms) && p[i] == lexical_hit(r, terms);
        assert(p[i] == lexical_hit(r, terms));
    }
}

/// Where a substring-search result stands among the results: before the results of
/// the second tier when it is in the first (its file name holds the query, ignoring
/// ASCII case), after those of the first tier otherwise.
proof fn lemma_short_result_at(rows: Seq<ShortQueryRow>, query: Seq<char>, i: int)
    requires
        0 <= i < short_results(rows, query).len(),
    ensures
        i < short_first_rows(rows, query).len() ==> {
            &&& short_results(rows, query)[i] == short_hit(short_first_rows(rows, query)[i], query)
            &&& short_row_kept(short_first_rows(rows, query)[i], query)
            &&& rows.contains(short_first_rows(rows, query)[i])
            &&& name_holds_query(short_results(rows, query)[i].file_name, query)
        },
        i >= short_first_rows(rows, query).len() ==> {
            let r = short_later_rows(rows, query)[i - short_first_rows(rows, query).len()];
            &&& short_results(rows, query)[i] == short_hit(r, query)
            &&& short_row_kept(r, query)
            &&& rows.contains(r)
            &&& !name_holds_query(short_results(rows, query)[i].file_name, query)
        },
{
    let first = |r: ShortQueryRow| short_row_kept(r, query) && name_holds_query(r.1@, query);
    let later = |r: ShortQueryRow| short_row_kept(r, query) && !name_holds_query(r.1@, query);
    lemma_filter_all(rows, first);
    lemma_filter_all(rows, later);
    let f = short_first_rows(rows, query);
    let l = short_later_rows(rows, query);
    assert(f == rows.filter(first));
    assert(l == rows.filter(later));
    let all = short_results(rows, query);
    if i < f.len() {
        assert(all[i] == short_hit(f[i], query));
        assert(first(f[i]));
    } else {
        let k = i - f.len();
        assert(all[i] == short_hit(l[k], query));
        assert(later(l[k]));
    }
}

/// Every substring-search result comes from a row whose file name or content matches
/// the query; it is a file-name match, ranked in tier 0, exactly when the query
/// matches its file name, and otherwise a content match in tier 1.
pub proof fn law_short_results_are_matches(rows: Seq<ShortQueryRow>, query: Seq<char>, limit: int)
    requires
        0 <= limit,
    ensures
        forall|i: int|
            0 <= i < prefix(short_results(rows, query), limit).len() ==> exists|r: ShortQueryRow|
                rows.contains(r) && short_row_kept(r, query) && #[trigger] prefix(
                    short_results(rows, query),
                    limit,
                )[i] == short_hit(r, query),
        forall|i: int|
            0 <= i < prefix(short_results(rows, query), limit).len() ==> {
                let hit = #[trigger] prefix(short_results(rows, query), limit)[i];
                &&& (hit.match_type == MatchType::Filename <==> text_matches(hit.file_name, query))
                &&& (hit.match_type == MatchType::Filename ==> hit.score == HitScore::Tier(0))
                &&& (hit.match_type == MatchType::Content ==> hit.score == HitScore::Tier(1))
                &&& (hit.match_type == MatchType::Filename || hit.match_type == MatchType::Content)
            },
{
    let all = short_results(rows, query);
    let p = prefix(all, limit);
    assert forall|i: int| 0 <= i < p.len() implies exists|r: ShortQueryRow|
        rows.contains(r) && short_row_kept(r, query) && #[trigger] p[i] == short_hit(r, query) by {
        assert(p[i] == all[i]);
        lemma_short_result_at(rows, query, i);
        if i < short_first_rows(rows, query).len() {
            let r = short_first_rows(rows, query)[i];
            assert(rows.contains(r) && short_row_kept(r, query) && p[i] == short_hit(r, query));
        } else {
            let r = short_later_rows(rows, query)[i - short_first_rows(rows, query).len()];
            assert(rows.contains(r) && short_row_kept(r, query) && p[i] == short_hit(r, query));
        }
    }
    assert forall|i: int| 0 <= i < p.len() implies {
        let hit = #[trigger] p[i];
        &&& (hit.match_type == MatchType::Filename <==> text_matches(hit.file_name, query))
        &&& (hit.match_type == MatchType::Filename ==> hit.score == HitScore::Tier(0))
        &&& (hit.match_type == MatchType::Content ==> hit.score == HitScore::Tier(1))
        &&& (hit.match_type == MatchType::Filename || hit.match_type == MatchType::Content)
    } by {
        let r = choose|r: ShortQueryRow|
            rows.contains(r) && short_row_kept(r, query) && p[i] == short_hit(r, query);
        assert(p[i] == short_hit(r, query));
    }
}

/// Substring-search results whose file name holds the query (ignoring ASCII case) come
/// before all others, and none of the others is returned while such a result is left
/// out by the limit. For an ASCII query every file-name match is among the first, so
/// file-name matches come before every result whose file name does not hold the query.
pub proof fn law_short_results_put_file_names_first(
    rows: Seq<ShortQueryRow>,
    query: Seq<char>,
    limit: int,
)
    requires
        0 <= limit,
    ensures
        forall|i: int, j: int|
            0 <= i < j < prefix(short_results(rows, query), limit).len() && name_holds_query(
                (#[trigger] prefix(short_results(rows, query), limit)[j]).file_name,
                query,
            ) ==> name_holds_query(
                (#[trigger] prefix(short_results(rows, query), limit)[i]).file_name,
                query,
            ),
        (exists|i: int|
            0 <= i < prefix(short_results(rows, query), limit).len() && !name_holds_query(
                (#[trigger] prefix(short_results(rows, query), limit)[i]).file_name,
                query,
            )) ==> forall|r: ShortQueryRow|
            #![trigger rows.contains(r), short_hit(r, query)]
            rows.contains(r) && short_row_kept(r, query) && name_holds_query(r.1@, query)
                ==> exists|k: int|
                0 <= k < prefix(short_results(rows, query), limit).len() && #[trigger] prefix(
                    short_results(rows, query),
                    limit,
                )[k] == short_hit(r, query),
        is_ascii_chars(query) ==> forall|i: int|
            0 <= i < prefix(short_results(rows, query), limit).len() && (#[trigger] prefix(
                short_results(rows, query),
                limit,
            )[i]).match_type == MatchType::Filename ==> name_holds_query(
                prefix(short_results(rows, query), limit)[i].file_name,
                query,
            ),
{
    let all = short_results(rows, query);
    let p = prefix(all, limit);
    let f = short_first_rows(rows, query);
    let first = |r: ShortQueryRow| short_row_kept(r, query) && name_holds_query(r.1@, query);
    assert(f == rows.filter(first));
    assert forall|i: int, j: int|
        0 <= i < j < p.len() && name_holds_query((#[trigger] p[j]).file_name, query)
            implies name_holds_query((#[trigger] p[i]).file_name, query) by {
        assert(p[i] == all[i] && p[j] == all[j]);
        lemma_short_result_at(rows, query, i);
        lemma_short_result_at(rows, query, j);
    }
    if exists|i: int| 0 <= i < p.len() && !name_holds_query((#[trigger] p[i]).file_name, query) {
        let i = choose|i: int| 0 <= i < p.len() && !name_holds_query((#[trigger] p[i]).file_name, query);
        assert(p[i] == all[i]);
        lemma_short_result_at(rows, query, i);
        assert(i >= f.len());
        assert forall|r: ShortQueryRow|
            #![trigger rows.contains(r), short_hit(r, query)]
            rows.contains(r) && short_row_kept(r, query) && name_holds_query(r.1@, query)
                implies exists|k: int| 0 <= k < p.len() && #[trigger] p[k] == short_hit(r, query) by {
            let n = choose|n: int| 0 <= n < rows.len() && rows[n] == r;
            rows.lemma_filter_contains(first, n);
            let k = choose|k: int| 0 <= k < f.len() && f[k] == r;
            assert(p[k] == all[k]);
            lemma_short_result_at(rows, query, k);
        }
    }
    if is_ascii_chars(query) {
        assert forall|i: int|
            0 <= i < p.len() && (#[trigger] p[i]).match_type == MatchType::Filename implies name_holds_query(
            p[i].file_name,
            query,
        ) by {
            assert(p[i] == all[i]);
            lemma_short_result_at(rows, query, i);
            let name = p[i].file_name;
            assert(text_matches(name, query));
            lemma_scan_sound(ascii_lower(name), name, ascii_lower(query), 0);
        }
    }
}

/// A combined result is labelled `Hybrid` exactly when both keyword and meaning search
/// found it; a result that only keyword search found keeps `Filename` or becomes
/// `Content`; one that only meaning search found is `Semantic`.
pub proof fn law_combined_labels(lexical: bool, semantic: bool, found_as: MatchType)
    requires
        lexical || semantic,
    ensures
        (fused_match_type_of(lexical, semantic, found_as) == MatchType::Hybrid) <==> (lexical
            && semantic),
        lexical && !semantic ==> (fused_match_type_of(lexical, semantic, found_as)
            == MatchType::Filename <==> found_as == MatchType::Filename),
        lexical && !semantic && found_as != MatchType::Filename ==> fused_match_type_of(
            lexical,
            semantic,
            found_as,
        ) == MatchType::Content,
        !lexical && semantic ==> fused_match_type_of(lexical, semantic, found_as)
            == MatchType::Semantic,
{
}

/// Reading an FTS5 string body back: each doubled `"` stands for one `"`.
pub open spec fn unescape_quotes(s: Seq<char>) -> Seq<char>
    decreases s.len(),
{
    if s.len() == 0 {
        seq![]
    } else if s.len() >= 2 && s.last() == '"' && s[s.len() - 2] == '"' {
        unescape_quotes(s.take(s.len() - 2)).push('"')
    } else {
        unescape_quotes(s.drop_last()).push(s.last())
    }
}

/// Quoting keeps a term intact: reading back the body of its FTS5 phrase gives the
/// term, so no input can end the phrase early and add FTS5 syntax of its own.
pub proof fn law_quoting_keeps_terms_intact(term: Seq<char>)
    ensures
        unescape_quotes(escape_quotes(term)) == term,
        prefix_phrase(term) == seq!['"'] + escape_quotes(term) + seq!['"', '*'],
    decreases term.len(),
{
    if term.len() > 0 {
        law_quoting_keeps_terms_intact(term.drop_last());
        let e = escape_quotes(term.drop_last());
        if term.last() == '"' {
            assert((e + seq!['"', '"']).take(e.len() as int) =~= e);
        } else {
            assert((e + seq![term.last()]).drop_last() =~= e);
        }
        assert(term.drop_last().push(term.last()) =~= term);
    }
}


proof fn lemma_scan_reaches(lowered: Seq<char>, text: Seq<char>, pattern: Seq<char>, pos: int, k: int)
    requires
        pattern.len() > 0,
        0 <= pos <= k,
        occurs_at(lowered, pattern, k),
        word_start(text, k),
        forall|q: int| 0 <= q < k && occurs_at(lowered, pattern, q) ==> q + pattern.len() <= k,
    ensures
        word_start_match_from(lowered, text, pattern, pos),
    decreases k - pos,
{
    if pos < k {
        if occurs_at(lowered, pattern, pos) {
            if !word_start(text, pos) {
                lemma_scan_reaches(lowered, text, pattern, pos + pattern.len(), k);
            }
        } else {
            lemma_scan_reaches(lowered, text, pattern, pos + 1, k);
        }
    }
}

/// An ASCII term matches a text in which it occurs, ignoring ASCII case, right after a
/// separator (a character that is not an ASCII letter or digit and not in the term),
/// whatever comes before the separator: occurrences earlier in the text that do not
/// start a word do not hide a later one that does.
pub proof fn law_term_matches_after_separator(
    before: Seq<char>,
    separator: char,
    after: Seq<char>,
    term: Seq<char>,
)
    requires
        is_ascii_chars(term),
        term.len() > 0,
        !is_ascii_alnum(separator),
        !term.contains(separator),
        term.len() <= after.len(),
        ascii_lower(after.take(term.len() as int)) == ascii_lower(term),
    ensures
        text_matches(before + seq![separator] + after, term),
{
    let text = before + seq![separator] + after;
    let lowered = ascii_lower(text);
    let pattern = ascii_lower(term);
    let k: int = before.len() as int + 1;
    let n = term.len() as int;
    assert(text[k - 1] == separator);
    assert(lowered.subrange(k, k + n) =~= ascii_lower(after.take(n))) by {
        assert forall|j: int| 0 <= j < n implies lowered.subrange(k, k + n)[j] == ascii_lower(
            after.take(n),
        )[j] by {
            assert(text[k + j] == after[j]);
        }
    }
    assert(occurs_at(lowered, pattern, k));
    assert forall|q: int| 0 <= q < k && occurs_at(lowered, pattern, q) implies q + n <= k by {
        if q + n > k {
            let j = k - 1 - q;
            assert(lowered.subrange(q, q + n)[j] == lowered[k - 1]);
            assert(lowered[k - 1] == ascii_lower_char(separator));
            assert(ascii_lower_char(separator) == separator);
            assert(pattern[j] == ascii_lower_char(term[j]));
            if 'A' <= term[j] && term[j] <= 'Z' {
                assert(is_ascii_alnum(ascii_lower_char(term[j])));
            }
            assert(term[j] == separator);
            assert(term.contains(separator));
        }
    }
    lemma_scan_reaches(lowered, text, pattern, 0, k);
}

/// Below the root, a walk never enters a folder whose name is, ignoring ASCII case, one
/// of the dependency, build, version-control and system folders `.git`, `.hg`, `.svn`,
/// `node_modules`, `target`, `dist`, `build`, `.idea`, `.vscode`, `$RECYCLE.BIN` and
/// `System Volume Information`, and it enters every other folder.
pub proof fn law_excluded_folders_are_skipped(depth: usize, name: Seq<char>)
    requires
        depth > 0,
    ensures
        ({
            let excluded = seq![
                ".git"@,
                ".hg"@,
                ".svn"@,
                "node_modules"@,
                "target"@,
                "dist"@,
                "build"@,
                ".idea"@,
                ".vscode"@,
                "$RECYCLE.BIN"@,
                "System Volume Information"@,
            ];
            &&& forall|i: int|
                0 <= i < excluded.len() && ascii_lower(name) == ascii_lower(#[trigger] excluded[i])
                    ==> !visits(true, depth, name)
            &&& (forall|i: int|
                0 <= i < excluded.len() ==> ascii_lower(name) != ascii_lower(#[trigger] excluded[i]))
                ==> visits(true, depth, name)
        }),
{
    let excluded = seq![
        ".git"@,
        ".hg"@,
        ".svn"@,
        "node_modules"@,
        "target"@,
        "dist"@,
        "build"@,
        ".idea"@,
        ".vscode"@,
        "$RECYCLE.BIN"@,
        "System Volume Information"@,
    ];
    assert(excluded[0] == ".git"@);
    assert(excluded[1] == ".hg"@);
    assert(excluded[2] == ".svn"@);
    assert(excluded[3] == "node_modules"@);
    assert(excluded[4] == "target"@);
    assert(excluded[5] == "dist"@);
    assert(excluded[6] == "build"@);
    assert(excluded[7] == ".idea"@);
    assert(excluded[8] == ".vscode"@);
    assert(excluded[9] == "$RECYCLE.BIN"@);
    assert(excluded[10] == "System Volume Information"@);
}


proof fn lemma_split_scan_after_break(x: Seq<char>, done: Seq<Seq<char>>, b: Seq<char>)
    requires
        split_scan(x) == (done, Seq::<char>::empty()),
    ensures
        split_scan(x + b) == (done + split_scan(b).0, split_scan(b).1),
    decreases b.len(),
{
    if b.len() == 0 {
        assert(x + b =~= x);
        assert(done + Seq::<Seq<char>>::empty() =~= done);
    } else {
        lemma_split_scan_after_break(x, done, b.drop_last());
        assert((x + b).drop_last() =~= x + b.drop_last());
        assert((x + b).last() == b.last());
        let (d, c) = split_scan(b.drop_last());
        assert((done + d).push(c) =~= done + d.push(c));
        assert((done + d) =~= done + d);
    }
}

proof fn lemma_split_scan_word(w: Seq<char>)
    requires
        forall|i: int| 0 <= i < w.len() ==> !is_white_space(#[trigger] w[i]),
    ensures
        split_scan(w) == (Seq::<Seq<char>>::empty(), w),
    decreases w.len(),
{
    if w.len() > 0 {
        lemma_split_scan_word(w.drop_last());
        assert(w.drop_last().push(w.last()) =~= w);
    }
}

/// Words are split at every Unicode `White_Space` character, as `str::split_whitespace`
/// does (not only at ASCII spaces): the words of `a`, any `White_Space` character, and
/// `b` are the words of `a` followed by the words of `b`, and so are the search terms.
pub proof fn law_terms_split_at_every_white_space(a: Seq<char>, c: char, b: Seq<char>)
    requires
        is_white_space(c),
    ensures
        whitespace_words(a + seq![c] + b) == whitespace_words(a) + whitespace_words(b),
        normalized_terms_of(a + seq![c] + b) == normalized_terms_of(a) + normalized_terms_of(b),
{
    let x = a.push(c);
    assert(a + seq![c] + b =~= x + b);
    assert(x.drop_last() =~= a);
    let (d, cur) = split_scan(a);
    let done = if cur.len() > 0 {
        d.push(cur)
    } else {
        d
    };
    assert(split_scan(x) == (done, Seq::<char>::empty()));
    assert(done == whitespace_words(a));
    lemma_split_scan_after_break(x, done, b);
    let (db, cb) = split_scan(b);
    if cb.len() > 0 {
        assert((done + db).push(cb) =~= done + db.push(cb));
    }
    let ww = whitespace_words(a) + whitespace_words(b);
    assert(whitespace_words(a + seq![c] + b) == ww);
    let clean = |w: Seq<char>| clean_term(w);
    let nonempty = |t: Seq<char>| t.len() > 0;
    assert(ww.map_values(clean) =~= whitespace_words(a).map_values(clean) + whitespace_words(
        b,
    ).map_values(clean));
    broadcast use vstd::seq_lib::group_seq_properties;
    Seq::filter_distributes_over_add(
        whitespace_words(a).map_values(clean),
        whitespace_words(b).map_values(clean),
        nonempty,
    );
}

/// Two words without `White_Space` whose cleaned forms are not empty, separated by any
/// `White_Space` character (an ideographic space as much as an ASCII one), give exactly
/// their two cleaned forms as search terms.
pub proof fn law_two_words_give_two_terms(w1: Seq<char>, c: char, w2: Seq<char>)
    requires
        is_white_space(c),
        forall|i: int| 0 <= i < w1.len() ==> !is_white_space(#[trigger] w1[i]),
        forall|i: int| 0 <= i < w2.len() ==> !is_white_space(#[trigger] w2[i]),
        clean_term(w1).len() > 0,
        clean_term(w2).len() > 0,
    ensures
        normalized_terms_of(w1 + seq![c] + w2) == seq![clean_term(w1), clean_term(w2)],
{
    law_terms_split_at_every_white_space(w1, c, w2);
    lemma_single_word_terms(w1);
    lemma_single_word_terms(w2);
    assert(seq![clean_term(w1)] + seq![clean_term(w2)] =~= seq![clean_term(w1), clean_term(w2)]);
}

proof fn lemma_single_word_terms(w: Seq<char>)
    requires
        forall|i: int| 0 <= i < w.len() ==> !is_white_space(#[trigger] w[i]),
        clean_term(w).len() > 0,
    ensures
        normalized_terms_of(w) == seq![clean_term(w)],
{
    lemma_split_scan_word(w);
    assert(whitespace_words(w) == seq![w]);
    let words = seq![w].map_values(|x: Seq<char>| clean_term(x));
    assert(words =~= Seq::<Seq<char>>::empty().push(clean_term(w)));
    lemma_filter_push(Seq::<Seq<char>>::empty(), clean_term(w), |t: Seq<char>| t.len() > 0);
    lemma_filter_empty(Seq::<Seq<char>>::empty(), |t: Seq<char>| t.len() > 0);
    assert(Seq::<Seq<char>>::empty().push(clean_term(w)) =~= seq![clean_term(w)]);
}


proof fn lemma_occurs_in_middle(a: Seq<char>, b: Seq<char>, c: Seq<char>)
    ensures
        occurs_at(a + b + c, b, a.len() as int),
{
    assert((a + b + c).subrange(a.len() as int, a.len() + b.len() as int) =~= b);
}

/// Storing a file whose path the index already holds replaces every value of its
/// document: the statement sets the root, file name, extension, size, modification
/// time, fingerprint and text each from the new version of the file.
pub proof fn law_storing_again_replaces_every_value()
    ensures
        exists|i: int| occurs_at(document_upsert_sql(), "root=excluded.root"@, i),
        exists|i: int| occurs_at(document_upsert_sql(), "file_name=excluded.file_name"@, i),
        exists|i: int| occurs_at(document_upsert_sql(), "extension=excluded.extension"@, i),
        exists|i: int| occurs_at(document_upsert_sql(), "size=excluded.size"@, i),
        exists|i: int| occurs_at(document_upsert_sql(), "modified_ns=excluded.modified_ns"@, i),
        exists|i: int| occurs_at(document_upsert_sql(), "fingerprint=excluded.fingerprint"@, i),
        exists|i: int| occurs_at(document_upsert_sql(), "content=excluded.content"@, i),
{
    let head = "INSERT INTO documents(root, path, file_name, extension, size, modified_ns, fingerprint, content) VALUES (?1, ?2, ?3, ?4, ?5, ?6, ?7, ?8) ON CONFLICT(path) DO UPDATE SET "@;
    let sep = ", "@;
    let p1 = "root=excluded.root"@;
    let p2 = "file_name=excluded.file_name"@;
    let p3 = "extension=excluded.extension"@;
    let p4 = "size=excluded.size"@;
    let p5 = "modified_ns=excluded.modified_ns"@;
    let p6 = "fingerprint=excluded.fingerprint"@;
    let p7 = "content=excluded.content"@;
    let sql = document_upsert_sql();
    let a1 = head;
    let a2 = a1 + p1 + sep;
    let a3 = a2 + p2 + sep;
    let a4 = a3 + p3 + sep;
    let a5 = a4 + p4 + sep;
    let a6 = a5 + p5 + sep;
    let a7 = a6 + p6 + sep;
    let r1 = sep + p2 + sep + p3 + sep + p4 + sep + p5 + sep + p6 + sep + p7;
    let r2 = sep + p3 + sep + p4 + sep + p5 + sep + p6 + sep + p7;
    let r3 = sep + p4 + sep + p5 + sep + p6 + sep + p7;
    let r4 = sep + p5 + sep + p6 + sep + p7;
    let r5 = sep + p6 + sep + p7;
    let r6 = sep + p7;
    let r7 = Seq::<char>::empty();
    assert(sql =~= a1 + p1 + r1);
    assert(sql =~= a2 + p2 + r2);
    assert(sql =~= a3 + p3 + r3);
    assert(sql =~= a4 + p4 + r4);
    assert(sql =~= a5 + p5 + r5);
    assert(sql =~= a6 + p6 + r6);
    assert(sql =~= a7 + p7 + r7);
    lemma_occurs_in_middle(a1, p1, r1);
    lemma_occurs_in_middle(a2, p2, r2);
    lemma_occurs_in_middle(a3, p3, r3);
    lemma_occurs_in_middle(a4, p4, r4);
    lemma_occurs_in_middle(a5, p5, r5);
    lemma_occurs_in_middle(a6, p6, r6);
    lemma_occurs_in_middle(a7, p7, r7);
}

} // verus!
