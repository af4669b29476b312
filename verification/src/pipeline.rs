//! The whole resolution engine, end to end: raw reference string -> parser
//! -> book resolver -> verse extractor -> formatter -> response block. All
//! of it is a pure function of the corpus and the input; re-invocation is
//! always safe.

use vstd::prelude::*;

use crate::corpus::{Corpus, MAX_NAME_CHARS};
use crate::errors::LookupError;
use crate::extractor::{book_index, chapter_index, extract_spec, get_verses, lemma_book_index_of};
use crate::formatter::{block_spec, format_passage, line_spec, lines_pre};
use crate::parser::{parse_reference, parse_spec, split_colon, Reference};
use crate::resolver::{best_index, exact_index, find_book_name};

verus! {

/// Which book the resolver picks for a candidate: the first exact match if
/// there is one, else the fuzzy phase's winner, else no match at all.
pub open spec fn resolve_spec(c: Corpus, cand: Seq<char>) -> Result<int, LookupError> {
    let e = exact_index(c.books@, cand, 0);
    if e >= 0 {
        Ok(e)
    } else {
        let b = best_index(c.books@, cand);
        if b >= 0 {
            Ok(b)
        } else {
            Err(LookupError::NoBookMatch)
        }
    }
}

/// What the whole engine returns for a raw reference string: the formatted
/// block of the selected verses, or the first failure along the way.
pub open spec fn lookup_spec(c: Corpus, s: Seq<char>) -> Result<Seq<char>, LookupError> {
    match parse_spec(s) {
        Err(e) => Err(e),
        Ok(t) => match resolve_spec(c, t.0) {
            Err(e) => Err(e),
            Ok(bi) => {
                let name = c.books@[bi].name@;
                match extract_spec(c, name, t.1, t.2, t.3) {
                    Err(e) => Err(e),
                    Ok(sel) => Ok(block_spec(name, t.1, sel)),
                }
            },
        },
    }
}

/// `needle` occurs contiguously somewhere in `hay`.
pub open spec fn contains_seq(hay: Seq<char>, needle: Seq<char>) -> bool {
    exists|o: int|
        0 <= o && o + needle.len() <= hay.len() && #[trigger] hay.subrange(o, o + needle.len())
            == needle
}

proof fn lemma_contains_suffix(x: Seq<char>, t: Seq<char>)
    ensures
        contains_seq(x + t, t),
{
    assert((x + t).subrange(x.len() as int, (x.len() + t.len()) as int) =~= t);
}

proof fn lemma_contains_right(a: Seq<char>, b: Seq<char>, t: Seq<char>)
    requires
        contains_seq(b, t),
    ensures
        contains_seq(a + b, t),
{
    let o = choose|o: int|
        0 <= o && o + t.len() <= b.len() && #[trigger] b.subrange(o, o + t.len()) == t;
    assert((a + b).subrange((a.len() + o) as int, (a.len() + o + t.len()) as int) =~= b.subrange(o, (o + t.len()) as int));
}

/// Exact-match phase always wins over the fuzzy phase: when book `i` is the
/// first whose canonical name or alias equals the candidate, the resolver
/// returns book `i`, whatever any similarity score says.
pub proof fn law_exact_match_resolves(c: Corpus, cand: Seq<char>, i: int)
    requires
        0 <= i < c.books@.len(),
        crate::resolver::book_exact(c.books@[i], cand),
        forall|q: int| 0 <= q < i ==> !crate::resolver::book_exact(#[trigger] c.books@[q], cand),
    ensures
        resolve_spec(c, cand) == Ok::<int, LookupError>(i),
{
    crate::resolver::law_exact_match_wins(c.books@, cand, i);
}

/// A descending range (`start > end`) makes extraction report
/// `VerseNotFound`, wherever it lands, never an out-of-bounds access.
pub proof fn law_descending_range_not_found(
    c: Corpus,
    book: Seq<char>,
    chapter: u32,
    start: u32,
    end: u32,
)
    requires
        start >= 1,
        end < start,
    ensures
        extract_spec(c, book, chapter, start, Some(end)) == Err::<
            Seq<crate::corpus::Verse>,
            LookupError,
        >(LookupError::VerseNotFound),
{
    let bi = book_index(c.books@, book, 0);
    if bi >= 0 {
        let ci = chapter_index(c.books@[bi].chapters@, chapter, 0);
        if ci >= 0 {
            crate::extractor::law_descending_range_empty(
                c.books@[bi].chapters@[ci].verses@,
                start,
                end,
            );
        }
    }
}

/// An omitted verse field (a two-field reference `Book:Chapter`) parses to
/// the whole-chapter range: start 1, unbounded end.
pub proof fn law_omitted_verse_defaults(s: Seq<char>)
    requires
        split_colon(s).len() == 2,
        parse_spec(s) is Ok,
    ensures
        parse_spec(s)->Ok_0.2 == 1,
        parse_spec(s)->Ok_0.3 is None,
{
}

/// Round trip: when a reference string parses to the canonical name of a
/// book (the first book that name matches exactly), one of its chapter
/// numbers and a verse position the chapter holds, the whole engine
/// succeeds and its block contains that verse's exact text.
pub proof fn law_round_trip(c: Corpus, s: Seq<char>, bi: int, ci: int, v: u32)
    requires
        c.wf(),
        parse_spec(s) is Ok,
        0 <= bi < c.books@.len(),
        parse_spec(s)->Ok_0.0 == c.books@[bi].name@,
        exact_index(c.books@, c.books@[bi].name@, 0) == bi,
        0 <= ci < c.books@[bi].chapters@.len(),
        chapter_index(c.books@[bi].chapters@, parse_spec(s)->Ok_0.1, 0) == ci,
        parse_spec(s)->Ok_0.2 == v,
        parse_spec(s)->Ok_0.3 == Some(v),
        1 <= v <= c.books@[bi].chapters@[ci].verses@.len(),
    ensures
        lookup_spec(c, s) is Ok,
        contains_seq(
            lookup_spec(c, s)->Ok_0,
            c.books@[bi].chapters@[ci].verses@[v as int - 1].text@,
        ),
{
    let t = parse_spec(s)->Ok_0;
    let name = c.books@[bi].name@;
    lemma_book_index_of(c.books@, name, bi, 0);
    let verses = c.books@[bi].chapters@[ci].verses@;
    let sel = crate::extractor::selection(verses, v, Some(v));
    assert(sel =~= verses.subrange(v as int - 1, v as int));
    assert(sel.len() == 1);
    assert(sel[0] == verses[v as int - 1]);
    let text = verses[v as int - 1].text@;
    let block = block_spec(name, t.1, sel);
    let ln = line_spec(t.1, sel[0]);
    assert(lines_pre(t.1, sel, 1) == ln);
    let prefix = "> **"@ + crate::formatter::dec_spec(t.1 as int) + ":"@
        + crate::formatter::dec_spec(sel[0].number as int) + "** "@;
    assert(ln == prefix + text);
    lemma_contains_suffix(prefix, text);
    let head = "## "@ + name + "\n ### Capitolul "@ + crate::formatter::dec_spec(t.1 as int)
        + "\n "@;
    assert(block == head + lines_pre(t.1, sel, 1));
    lemma_contains_right(head, ln, text);
}

/// Runs the whole engine: parse the reference, resolve the book, extract
/// the range, format the block. Returns exactly what [`lookup_spec`] says,
/// for every input; never panics.
pub fn lookup_passage(corpus: &Corpus, reference: &str) -> (r: Result<String, LookupError>)
    requires
        corpus.wf(),
        reference@.len() <= MAX_NAME_CHARS,
    ensures
        match r {
            Ok(out) => lookup_spec(*corpus, reference@) matches Ok(bs) && out@ == bs,
            Err(e) => lookup_spec(*corpus, reference@) matches Err(e2) && e == e2,
        },
{
    let rf: Reference = match parse_reference(reference) {
        Ok(rf) => rf,
        Err(e) => {
            return Err(e);
        },
    };
    let name: String = match find_book_name(corpus, &rf.book) {
        Ok(n) => n,
        Err(e) => {
            return Err(e);
        },
    };
    proof {
        crate::resolver::lemma_exact_index_range(corpus.books@, rf.book@, 0);
        crate::resolver::lemma_best_from_range(corpus.books@, rf.book@, 0, -1, 0);
        let idx = resolve_spec(*corpus, rf.book@)->Ok_0;
        lemma_book_index_of(corpus.books@, name@, idx, 0);
    }
    let verses: Vec<crate::corpus::Verse> = match get_verses(
        corpus,
        name.as_str(),
        rf.chapter,
        rf.start,
        rf.end,
    ) {
        Ok(v) => v,
        Err(e) => {
            return Err(e);
        },
    };
    let out: String = format_passage(name.as_str(), rf.chapter, &verses);
    Ok(out)
}

/// The decision on an external assistant's reply: an explicit error field
/// or a missing reply text is [`LookupError::AssistantFailed`], never a
/// valid reference.
pub fn interpret_assistant_reply(error: Option<String>, content: Option<String>) -> (r: Result<
    String,
    LookupError,
>)
    ensures
        match r {
            Ok(text) => error is None && (content matches Some(t) && text@ == t@),
            Err(e) => e == LookupError::AssistantFailed && (error is Some || content is None),
        },
{
    match error {
        Some(_) => Err(LookupError::AssistantFailed),
        None => match content {
            Some(t) => Ok(t),
            None => Err(LookupError::AssistantFailed),
        },
    }
}

} // verus!
