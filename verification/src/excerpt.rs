//! Excerpts shown with results, and the document summary that meaning search embeds.
use vstd::prelude::*;

use crate::text::{ascii_lower, chars_of, extend_chars, find_chars, find_from, string_from, to_ascii_lower};

verus! {

/// Characters of context kept before a highlighted match.
pub const CONTEXT_BEFORE: usize = 36;

/// Characters of context kept after a highlighted match.
pub const CONTEXT_AFTER: usize = 72;

/// Length of the excerpt shown when the query does not occur in the content.
pub const PLAIN_EXCERPT_CHARS: usize = 120;

/// Length of the excerpt shown with a meaning-search result.
pub const SEMANTIC_EXCERPT_CHARS: usize = 280;

/// Length of each of the three samples a long document is summarised by.
pub const SUMMARY_SAMPLE_CHARS: usize = 240;

pub open spec fn min(a: int, b: int) -> int {
    if a <= b {
        a
    } else {
        b
    }
}

/// `... `
pub open spec fn leading_ellipsis() -> Seq<char> {
    seq!['.', '.', '.', ' ']
}

/// ` ...`
pub open spec fn trailing_ellipsis() -> Seq<char> {
    seq![' ', '.', '.', '.']
}

/// `<mark>`
pub open spec fn mark_open() -> Seq<char> {
    seq!['<', 'm', 'a', 'r', 'k', '>']
}

/// `</mark>`
pub open spec fn mark_close() -> Seq<char> {
    seq!['<', '/', 'm', 'a', 'r', 'k', '>']
}

/// A line break, a horizontal ellipsis and a line break: what separates the samples
/// of a summary.
pub open spec fn sample_separator() -> Seq<char> {
    seq!['\n', '\u{2026}', '\n']
}

/// Where the query is highlighted: its first occurrence in the content, or else its
/// first occurrence ignoring ASCII case.
pub open spec fn highlight_start(content: Seq<char>, query: Seq<char>) -> Option<int> {
    match find_from(content, query, 0) {
        Some(i) => Some(i),
        None => find_from(ascii_lower(content), ascii_lower(query), 0),
    }
}

/// The short-query snippet: up to 36 characters before the match, the match inside
/// `<mark>`, up to 72 characters after it, with `... ` / ` ...` where the content was
/// cut; the first 120 characters when the query does not occur.
pub open spec fn highlighted_excerpt_of(content: Seq<char>, query: Seq<char>) -> Seq<char> {
    match highlight_start(content, query) {
        None => content.take(min(PLAIN_EXCERPT_CHARS as int, content.len() as int)),
        Some(start) => {
            let excerpt_start = if start >= CONTEXT_BEFORE {
                start - CONTEXT_BEFORE
            } else {
                0
            };
            let match_end = min(start + query.len(), content.len() as int);
            let excerpt_end = min(match_end + CONTEXT_AFTER, content.len() as int);
            (if excerpt_start > 0 {
                leading_ellipsis()
            } else {
                seq![]
            }) + content.subrange(excerpt_start, start) + mark_open() + content.subrange(
                start,
                match_end,
            ) + mark_close() + content.subrange(match_end, excerpt_end) + (if excerpt_end
                < content.len() {
                trailing_ellipsis()
            } else {
                seq![]
            })
        },
    }
}

/// The meaning-search snippet: the first 280 characters, with ` ...` when there are more.
pub open spec fn semantic_excerpt_of(content: Seq<char>) -> Seq<char> {
    if content.len() > SEMANTIC_EXCERPT_CHARS {
        content.take(SEMANTIC_EXCERPT_CHARS as int) + trailing_ellipsis()
    } else {
        content
    }
}

/// The text embedded for a document: the whole content when it has at most 720
/// characters; otherwise its first 240, middle 240 and last 240 characters, separated
/// by an ellipsis on a line of its own.
pub open spec fn document_summary_of(content: Seq<char>) -> Seq<char> {
    let n = content.len() as int;
    let sample = SUMMARY_SAMPLE_CHARS as int;
    if n <= sample * 3 {
        content
    } else {
        let middle_start = n / 2 - sample / 2;
        content.take(sample) + sample_separator() + content.subrange(
            middle_start,
            middle_start + sample,
        ) + sample_separator() + content.subrange(n - sample, n)
    }
}

fn push_leading_ellipsis(out: &mut Vec<char>)
    ensures
        final(out)@ == old(out)@ + leading_ellipsis(),
{
    out.push('.');
    out.push('.');
    out.push('.');
    out.push(' ');
    assert(out@ =~= old(out)@ + leading_ellipsis());
}

fn push_trailing_ellipsis(out: &mut Vec<char>)
    ensures
        final(out)@ == old(out)@ + trailing_ellipsis(),
{
    out.push(' ');
    out.push('.');
    out.push('.');
    out.push('.');
    assert(out@ =~= old(out)@ + trailing_ellipsis());
}

fn push_mark_open(out: &mut Vec<char>)
    ensures
        final(out)@ == old(out)@ + mark_open(),
{
    out.push('<');
    out.push('m');
    out.push('a');
    out.push('r');
    out.push('k');
    out.push('>');
    assert(out@ =~= old(out)@ + mark_open());
}

fn push_mark_close(out: &mut Vec<char>)
    ensures
        final(out)@ == old(out)@ + mark_close(),
{
    out.push('<');
    out.push('/');
    out.push('m');
    out.push('a');
    out.push('r');
    out.push('k');
    out.push('>');
    assert(out@ =~= old(out)@ + mark_close());
}

fn push_sample_separator(out: &mut Vec<char>)
    ensures
        final(out)@ == old(out)@ + sample_separator(),
{
    out.push('\n');
    out.push('\u{2026}');
    out.push('\n');
    assert(out@ =~= old(out)@ + sample_separator());
}

/// The short-query snippet of `content` around `query` (see `highlighted_excerpt_of`).
pub fn highlighted_excerpt(content: &str, query: &str) -> (r: String)
    ensures
        r@ == highlighted_excerpt_of(content@, query@),
{
    let characters = chars_of(content);
    let query_characters = chars_of(query);
    let found = match find_chars(&characters, &query_characters, 0) {
        Some(i) => Some(i),
        None => {
            let lowered = to_ascii_lower(&characters);
            let lowered_query = to_ascii_lower(&query_characters);
            find_chars(&lowered, &lowered_query, 0)
        },
    };
    let n = characters.len();
    let start_character = match found {
        None => {
            let end = if n < PLAIN_EXCERPT_CHARS {
                n
            } else {
                PLAIN_EXCERPT_CHARS
            };
            let s = string_from(&characters, 0, end);
            assert(characters@.subrange(0, end as int) =~= characters@.take(end as int));
            return s;
        },
        Some(i) => i,
    };
    proof {
        crate::text::lemma_find_from(characters@, query_characters@, 0);
        crate::text::lemma_find_from(ascii_lower(characters@), ascii_lower(query_characters@), 0);
    }
    assert(start_character <= n);
    let excerpt_start = if start_character >= CONTEXT_BEFORE {
        start_character - CONTEXT_BEFORE
    } else {
        0
    };
    let match_end = if query_characters.len() <= n - start_character {
        start_character + query_characters.len()
    } else {
        n
    };
    let excerpt_end = if CONTEXT_AFTER <= n - match_end {
        match_end + CONTEXT_AFTER
    } else {
        n
    };
    let mut out: Vec<char> = Vec::new();
    if excerpt_start > 0 {
        push_leading_ellipsis(&mut out);
    }
    extend_chars(&mut out, &characters, excerpt_start, start_character);
    push_mark_open(&mut out);
    extend_chars(&mut out, &characters, start_character, match_end);
    push_mark_close(&mut out);
    extend_chars(&mut out, &characters, match_end, excerpt_end);
    if excerpt_end < n {
        push_trailing_ellipsis(&mut out);
    }
    let s = string_from(&out, 0, out.len());
    assert(out@.subrange(0, out@.len() as int) =~= out@);
    assert(out@ =~= highlighted_excerpt_of(content@, query@));
    s
}

/// The meaning-search snippet: the first 280 characters, with ` ...` when there are more.
pub fn semantic_excerpt(content: &str) -> (r: String)
    ensures
        r@ == semantic_excerpt_of(content@),
{
    let characters = chars_of(content);
    let mut out: Vec<char> = Vec::new();
    if characters.len() > SEMANTIC_EXCERPT_CHARS {
        extend_chars(&mut out, &characters, 0, SEMANTIC_EXCERPT_CHARS);
        push_trailing_ellipsis(&mut out);
    } else {
        extend_chars(&mut out, &characters, 0, characters.len());
    }
    let s = string_from(&out, 0, out.len());
    assert(out@.subrange(0, out@.len() as int) =~= out@);
    assert(out@ =~= semantic_excerpt_of(content@));
    s
}

/// The text embedded for a document (see `document_summary_of`).
pub fn semantic_document_summary(content: &str) -> (r: String)
    ensures
        r@ == document_summary_of(content@),
{
    let characters = chars_of(content);
    let n = characters.len();
    if n <= SUMMARY_SAMPLE_CHARS * 3 {
        let s = string_from(&characters, 0, n);
        assert(characters@.subrange(0, n as int) =~= characters@);
        return s;
    }
    let middle_start = n / 2 - SUMMARY_SAMPLE_CHARS / 2;
    let tail_start = n - SUMMARY_SAMPLE_CHARS;
    let mut out: Vec<char> = Vec::new();
    extend_chars(&mut out, &characters, 0, SUMMARY_SAMPLE_CHARS);
    push_sample_separator(&mut out);
    extend_chars(&mut out, &characters, middle_start, middle_start + SUMMARY_SAMPLE_CHARS);
    push_sample_separator(&mut out);
    extend_chars(&mut out, &characters, tail_start, n);
    let s = string_from(&out, 0, out.len());
    assert(out@.subrange(0, out@.len() as int) =~= out@);
    assert(out@ =~= document_summary_of(content@));
    s
}

} // verus!
