//! Turning user input into search terms and deciding whether a text matches a term.
use vstd::prelude::*;
use vstd::utf8::is_ascii_chars;

use crate::text::{
    ascii_lower, char_is_alphanumeric, char_is_ascii_alnum, char_is_whitespace, chars_of,
    find_chars, is_ascii_alnum, is_unicode_alphanumeric, is_white_space, lemma_filter_empty,
    lemma_filter_push, lemma_find_from, occurs_at, occurs_at_exec, str_to_lowercase, string_from,
    to_ascii_lower, unicode_lowercase,
};

verus! {

broadcast use vstd::seq_lib::group_seq_properties;

/// The character views of a list of strings.
pub open spec fn views(v: Seq<String>) -> Seq<Seq<char>> {
    v.map_values(|t: String| t@)
}

/// Characters that survive in a search term: letters, digits, `_` and `-`.
pub open spec fn keeps_term_char(c: char) -> bool {
    is_unicode_alphanumeric(c) || c == '_' || c == '-'
}

/// A word with every character other than letters, digits, `_` and `-` removed.
pub open spec fn clean_term(w: Seq<char>) -> Seq<char> {
    w.filter(|c: char| keeps_term_char(c))
}

/// Reading `s` left to right: the words completed so far, and the word being read.
pub open spec fn split_scan(s: Seq<char>) -> (Seq<Seq<char>>, Seq<char>)
    decreases s.len(),
{
    if s.len() == 0 {
        (seq![], seq![])
    } else {
        let (done, current) = split_scan(s.drop_last());
        if is_white_space(s.last()) {
            if current.len() > 0 {
                (done.push(current), seq![])
            } else {
                (done, seq![])
            }
        } else {
            (done, current.push(s.last()))
        }
    }
}

/// The maximal runs of non-`White_Space` characters of `s`, as `str::split_whitespace`
/// yields them.
pub open spec fn whitespace_words(s: Seq<char>) -> Seq<Seq<char>> {
    let (done, current) = split_scan(s);
    if current.len() > 0 {
        done.push(current)
    } else {
        done
    }
}

/// The search terms of a query: its whitespace-separated words, each reduced to its
/// letters, digits, `_` and `-`, leaving out the words that become empty.
pub open spec fn normalized_terms_of(query: Seq<char>) -> Seq<Seq<char>> {
    whitespace_words(query).map_values(|w: Seq<char>| clean_term(w)).filter(
        |t: Seq<char>| t.len() > 0,
    )
}

/// A term with each `"` doubled, as an FTS5 string needs.
pub open spec fn escape_quotes(t: Seq<char>) -> Seq<char>
    decreases t.len(),
{
    if t.len() == 0 {
        seq![]
    } else {
        escape_quotes(t.drop_last()) + if t.last() == '"' {
            seq!['"', '"']
        } else {
            seq![t.last()]
        }
    }
}

/// An FTS5 prefix query for one term: `"term"*`.
pub open spec fn prefix_phrase(t: Seq<char>) -> Seq<char> {
    seq!['"'] + escape_quotes(t) + seq!['"', '*']
}

/// The text ` AND `.
pub open spec fn and_separator() -> Seq<char> {
    seq![' ', 'A', 'N', 'D', ' ']
}

/// The prefix phrases of `terms`, joined by ` AND `.
pub open spec fn join_phrases(terms: Seq<Seq<char>>) -> Seq<char>
    decreases terms.len(),
{
    if terms.len() == 0 {
        seq![]
    } else if terms.len() == 1 {
        prefix_phrase(terms[0])
    } else {
        join_phrases(terms.drop_last()) + and_separator() + prefix_phrase(terms.last())
    }
}

/// The FTS5 query for user input: every term as a prefix phrase, all required;
/// none when the input has no terms.
pub open spec fn fts_query_of(query: Seq<char>) -> Option<Seq<char>> {
    let terms = normalized_terms_of(query);
    if terms.len() == 0 {
        None
    } else {
        Some(join_phrases(terms))
    }
}

/// `i` is the start of a word of `text`: the first position, or one after a
/// character that is not an ASCII letter or digit.
pub open spec fn word_start(text: Seq<char>, i: int) -> bool {
    i == 0 || !is_ascii_alnum(text[i - 1])
}

/// Walking the non-overlapping occurrences of `pattern` in `lowered` from `pos` on,
/// as `str::match_indices` yields them: whether one of them starts a word of `text`.
pub open spec fn word_start_match_from(
    lowered: Seq<char>,
    text: Seq<char>,
    pattern: Seq<char>,
    pos: int,
) -> bool
    decreases lowered.len() - pos,
{
    if pattern.len() == 0 || pos < 0 || pos + pattern.len() > lowered.len() {
        false
    } else if occurs_at(lowered, pattern, pos) {
        word_start(text, pos) || word_start_match_from(lowered, text, pattern, pos + pattern.len())
    } else {
        word_start_match_from(lowered, text, pattern, pos + 1)
    }
}

/// Whether `text` matches the search `term`. An ASCII term must occur, ignoring ASCII
/// case, at the start of a word (among the non-overlapping occurrences, taken from the
/// left); any other term must occur anywhere in the Unicode-lowercased text.
pub open spec fn text_matches(text: Seq<char>, term: Seq<char>) -> bool {
    &&& term.len() > 0
    &&& if is_ascii_chars(term) {
        word_start_match_from(ascii_lower(text), text, ascii_lower(term), 0)
    } else {
        exists|i: int| occurs_at(unicode_lowercase(text), unicode_lowercase(term), i)
    }
}

/// Every term matches the file name, the path or the content.
pub open spec fn fields_match(
    file_name: Seq<char>,
    path: Seq<char>,
    content: Seq<char>,
    terms: Seq<Seq<char>>,
) -> bool {
    forall|i: int|
        0 <= i < terms.len() ==> {
            ||| text_matches(file_name, #[trigger] terms[i])
            ||| text_matches(path, terms[i])
            ||| text_matches(content, terms[i])
        }
}

/// Every term matches `text`.
pub open spec fn all_terms_match(text: Seq<char>, terms: Seq<Seq<char>>) -> bool {
    forall|i: int| 0 <= i < terms.len() ==> text_matches(text, #[trigger] terms[i])
}



/// The search terms of `query`: its whitespace-separated words, each reduced to its
/// letters, digits, `_` and `-`, leaving out the words that become empty.
pub fn normalized_terms(query: &str) -> (terms: Vec<String>)
    ensures
        views(terms@) == normalized_terms_of(query@),
{
    let chars = chars_of(query);
    let mut terms: Vec<String> = Vec::new();
    let mut current: Vec<char> = Vec::new();
    proof {
        assert(chars@.take(0) =~= Seq::<char>::empty());
        lemma_filter_empty(Seq::<Seq<char>>::empty(), |t: Seq<char>| t.len() > 0);
        lemma_filter_empty(Seq::<char>::empty(), |c: char| keeps_term_char(c));
        assert(views(terms@) =~= Seq::<Seq<char>>::empty());
        assert(Seq::<Seq<char>>::empty().map_values(|w: Seq<char>| clean_term(w)) =~= Seq::<
            Seq<char>,
        >::empty());
    }
    for i in 0..chars.len()
        invariant
            chars@ == query@,
            views(terms@) == split_scan(chars@.take(i as int)).0.map_values(
                |w: Seq<char>| clean_term(w),
            ).filter(|t: Seq<char>| t.len() > 0),
            current@ == clean_term(split_scan(chars@.take(i as int)).1),
    {
        let c = chars[i];
        let ghost prev = chars@.take(i as int);
        let ghost done = split_scan(prev).0;
        let ghost raw = split_scan(prev).1;
        proof {
            assert(chars@.take(i + 1).drop_last() =~= prev);
            assert(chars@.take(i + 1).last() == c);
        }
        if char_is_whitespace(c) {
            if current.len() > 0 {
                let term = string_from(&current, 0, current.len());
                proof {
                    assert(current@.subrange(0, current@.len() as int) =~= current@);
                    lemma_filter_push(
                        done.map_values(|w: Seq<char>| clean_term(w)),
                        clean_term(raw),
                        |t: Seq<char>| t.len() > 0,
                    );
                    assert(done.push(raw).map_values(|w: Seq<char>| clean_term(w)) =~= done.map_values(
                        |w: Seq<char>| clean_term(w),
                    ).push(clean_term(raw)));
                    assert(views(terms@.push(term)) =~= views(terms@).push(term@));
                }
                terms.push(term);
            } else {
                proof {
                    if raw.len() > 0 {
                        lemma_filter_push(
                            done.map_values(|w: Seq<char>| clean_term(w)),
                            clean_term(raw),
                            |t: Seq<char>| t.len() > 0,
                        );
                        assert(done.push(raw).map_values(|w: Seq<char>| clean_term(w))
                            =~= done.map_values(|w: Seq<char>| clean_term(w)).push(
                            clean_term(raw),
                        ));
                    }
                }
            }
            current = Vec::new();
            proof {
                lemma_filter_empty(Seq::<char>::empty(), |c: char| keeps_term_char(c));
                assert(current@ =~= Seq::<char>::empty());
            }
        } else {
            proof {
                lemma_filter_push(raw, c, |c: char| keeps_term_char(c));
            }
            if char_is_alphanumeric(c) || c == '_' || c == '-' {
                current.push(c);
            }
        }
    }
    let ghost done = split_scan(chars@).0;
    let ghost raw = split_scan(chars@).1;
    assert(chars@.take(chars@.len() as int) =~= chars@);
    if current.len() > 0 {
        let term = string_from(&current, 0, current.len());
        proof {
            assert(current@.subrange(0, current@.len() as int) =~= current@);
            lemma_filter_push(
                done.map_values(|w: Seq<char>| clean_term(w)),
                clean_term(raw),
                |t: Seq<char>| t.len() > 0,
            );
            assert(done.push(raw).map_values(|w: Seq<char>| clean_term(w)) =~= done.map_values(
                |w: Seq<char>| clean_term(w),
            ).push(clean_term(raw)));
            assert(views(terms@.push(term)) =~= views(terms@).push(term@));
        }
        terms.push(term);
    } else {
        proof {
            if raw.len() > 0 {
                lemma_filter_push(
                    done.map_values(|w: Seq<char>| clean_term(w)),
                    clean_term(raw),
                    |t: Seq<char>| t.len() > 0,
                );
                assert(done.push(raw).map_values(|w: Seq<char>| clean_term(w)) =~= done.map_values(
                    |w: Seq<char>| clean_term(w),
                ).push(clean_term(raw)));
            }
        }
    }
    terms
}

/// Appends the prefix phrase `"term"*` of `term` to `out`.
fn push_prefix_phrase(out: &mut Vec<char>, term: &String)
    ensures
        final(out)@ == old(out)@ + prefix_phrase(term@),
{
    let chars = chars_of(term.as_str());
    out.push('"');
    let mut i: usize = 0;
    while i < chars.len()
        invariant
            i <= chars.len(),
            chars@ == term@,
            out@ == old(out)@ + seq!['"'] + escape_quotes(chars@.take(i as int)),
        decreases chars.len() - i,
    {
        proof {
            assert(chars@.take(i + 1).drop_last() =~= chars@.take(i as int));
        }
        if chars[i] == '"' {
            out.push('"');
            out.push('"');
        } else {
            out.push(chars[i]);
        }
        i += 1;
        assert(out@ =~= old(out)@ + seq!['"'] + escape_quotes(chars@.take(i as int)));
    }
    out.push('"');
    out.push('*');
    assert(chars@.take(chars@.len() as int) =~= chars@);
    assert(out@ =~= old(out)@ + prefix_phrase(term@));
}

/// The FTS5 query for user input: each term as a prefix phrase `"term"*` (with `"`
/// doubled), joined by ` AND `; `None` when the input holds no term.
pub fn fts_query(query: &str) -> (r: Option<String>)
    ensures
        match r {
            Some(q) => fts_query_of(query@) == Some(q@),
            None => fts_query_of(query@) is None,
        },
        r is None <==> normalized_terms_of(query@).len() == 0,
{
    let terms = normalized_terms(query);
    if terms.len() == 0 {
        return None;
    }
    let ghost tv = views(terms@);
    let mut out: Vec<char> = Vec::new();
    push_prefix_phrase(&mut out, &terms[0]);
    assert(tv.take(1).drop_last().len() == 0);
    assert(out@ =~= join_phrases(tv.take(1)));
    let mut i: usize = 1;
    while i < terms.len()
        invariant
            1 <= i <= terms.len(),
            tv == views(terms@),
            out@ == join_phrases(tv.take(i as int)),
        decreases terms.len() - i,
    {
        out.push(' ');
        out.push('A');
        out.push('N');
        out.push('D');
        out.push(' ');
        push_prefix_phrase(&mut out, &terms[i]);
        proof {
            assert(tv.take(i + 1).drop_last() =~= tv.take(i as int));
            assert(tv.take(i + 1).last() == terms@[i as int]@);
        }
        i += 1;
        assert(out@ =~= join_phrases(tv.take(i as int)));
    }
    assert(tv.take(terms.len() as int) =~= tv);
    let s = string_from(&out, 0, out.len());
    assert(out@.subrange(0, out@.len() as int) =~= out@);
    Some(s)
}

/// Whether `text` matches the search term `term` (see `text_matches`).
pub fn text_matches_term(text: &str, term: &str) -> (r: bool)
    ensures
        r == text_matches(text@, term@),
{
    if term.is_empty() {
        return false;
    }
    if !term.is_ascii() {
        let lowered_text = str_to_lowercase(text);
        let lowered_term = str_to_lowercase(term);
        let lt = chars_of(lowered_text.as_str());
        let lp = chars_of(lowered_term.as_str());
        let found = find_chars(&lt, &lp, 0);
        proof {
            lemma_find_from(lt@, lp@, 0);
            if found is None {
                assert forall|i: int| !occurs_at(lt@, lp@, i) by {
                    if i >= 0 {
                        assert(0 <= i);
                    }
                }
            }
        }
        return found.is_some();
    }
    let t = chars_of(text);
    let lowered = to_ascii_lower(&t);
    let term_chars = chars_of(term);
    let pattern = to_ascii_lower(&term_chars);
    let mut pos: usize = 0;
    while pos <= lowered.len() && pattern.len() <= lowered.len() - pos
        invariant
            t@ == text@,
            lowered@ == ascii_lower(t@),
            pattern@ == ascii_lower(term@),
            pattern@.len() > 0,
            is_ascii_chars(term@),
            word_start_match_from(lowered@, t@, pattern@, 0) == word_start_match_from(
                lowered@,
                t@,
                pattern@,
                pos as int,
            ),
        decreases lowered.len() + 1 - pos,
    {
        if occurs_at_exec(&lowered, &pattern, pos) {
            if pos == 0 || !char_is_ascii_alnum(t[pos - 1]) {
                return true;
            }
            pos += pattern.len();
        } else {
            pos += 1;
        }
    }
    false
}

/// Whether every term matches the file name, the path or the content.
pub fn fields_match_terms(file_name: &str, path: &str, content: &str, terms: &Vec<String>) -> (r:
    bool)
    ensures
        r == fields_match(file_name@, path@, content@, views(terms@)),
{
    let mut i: usize = 0;
    while i < terms.len()
        invariant
            i <= terms.len(),
            forall|j: int|
                0 <= j < i ==> {
                    ||| text_matches(file_name@, #[trigger] views(terms@)[j])
                    ||| text_matches(path@, views(terms@)[j])
                    ||| text_matches(content@, views(terms@)[j])
                },
        decreases terms.len() - i,
    {
        let term = terms[i].as_str();
        if !(text_matches_term(file_name, term) || text_matches_term(path, term)
            || text_matches_term(content, term)) {
            assert(views(terms@)[i as int] == terms@[i as int]@);
            return false;
        }
        i += 1;
    }
    true
}

/// Whether every term matches `text`.
pub fn text_matches_all(text: &str, terms: &Vec<String>) -> (r: bool)
    ensures
        r == all_terms_match(text@, views(terms@)),
{
    let mut i: usize = 0;
    while i < terms.len()
        invariant
            i <= terms.len(),
            forall|j: int| 0 <= j < i ==> text_matches(text@, #[trigger] views(terms@)[j]),
        decreases terms.len() - i,
    {
        if !text_matches_term(text, terms[i].as_str()) {
            assert(views(terms@)[i as int] == terms@[i as int]@);
            return false;
        }
        i += 1;
    }
    true
}

} // verus!
