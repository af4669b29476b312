//! The verse extractor: given a canonical book name, a chapter number and a
//! verse range, retrieves the matching verses. Verses are selected by
//! position (1-based), clipped to the chapter's length; a missing book or
//! chapter, or an empty selection, is the normal
//! [`LookupError::VerseNotFound`] result, never a fault.

use vstd::prelude::*;

use crate::corpus::{Book, Chapter, Corpus, Verse};
use crate::errors::LookupError;
use crate::resolver::chars_eq;
use crate::similarity::chars_of;

verus! {

/// Index of the first book at or after `i` whose canonical name is `name`;
/// `-1` if there is none.
pub open spec fn book_index(books: Seq<Book>, name: Seq<char>, i: int) -> int
    decreases books.len() - i,
{
    if i < 0 || i >= books.len() {
        -1
    } else if books[i].name@ == name {
        i
    } else {
        book_index(books, name, i + 1)
    }
}

/// Index of the first chapter at or after `i` with the given number; `-1`
/// if there is none.
pub open spec fn chapter_index(chapters: Seq<Chapter>, number: u32, i: int) -> int
    decreases chapters.len() - i,
{
    if i < 0 || i >= chapters.len() {
        -1
    } else if chapters[i].number == number {
        i
    } else {
        chapter_index(chapters, number, i + 1)
    }
}

/// The verses selected by the range: positions `start-1` up to `end-1`
/// inclusive (or the chapter's end when `end` is the unbounded sentinel or
/// beyond it). A non-ascending or out-of-range start selects nothing.
pub open spec fn selection(verses: Seq<Verse>, start: u32, end: Option<u32>) -> Seq<Verse> {
    let n = verses.len() as int;
    let hi = match end {
        None => n,
        Some(e) => if e as int <= n {
            e as int
        } else {
            n
        },
    };
    let lo = start as int - 1;
    if 0 <= lo < hi {
        verses.subrange(lo, hi)
    } else {
        Seq::<Verse>::empty()
    }
}

/// What extraction returns: the selected verses of the named book's
/// chapter, or `VerseNotFound` when the book or chapter is absent or the
/// selection is empty.
pub open spec fn extract_spec(
    c: Corpus,
    book: Seq<char>,
    chapter: u32,
    start: u32,
    end: Option<u32>,
) -> Result<Seq<Verse>, LookupError> {
    let bi = book_index(c.books@, book, 0);
    if bi < 0 {
        Err(LookupError::VerseNotFound)
    } else {
        let ci = chapter_index(c.books@[bi].chapters@, chapter, 0);
        if ci < 0 {
            Err(LookupError::VerseNotFound)
        } else {
            let sel = selection(c.books@[bi].chapters@[ci].verses@, start, end);
            if sel.len() == 0 {
                Err(LookupError::VerseNotFound)
            } else {
                Ok(sel)
            }
        }
    }
}

/// If the books' names are unique and book `bi` is named `name`, the lookup
/// by name finds exactly `bi`.
pub proof fn lemma_book_index_of(books: Seq<Book>, name: Seq<char>, bi: int, i: int)
    requires
        0 <= i <= bi < books.len(),
        books[bi].name@ == name,
        forall|p: int, q: int|
            0 <= p < q < books.len() ==> (#[trigger] books[p]).name@ != (#[trigger] books[q]).name@,
    ensures
        book_index(books, name, i) == bi,
    decreases bi - i,
{
    if i < bi {
        assert(books[i].name@ != books[bi].name@);
        lemma_book_index_of(books, name, bi, i + 1);
    }
}

/// A descending range (`start > end`) selects nothing.
pub proof fn law_descending_range_empty(verses: Seq<Verse>, start: u32, end: u32)
    requires
        start >= 1,
        end < start,
    ensures
        selection(verses, start, Some(end)) == Seq::<Verse>::empty(),
{
}

/// A start beyond the chapter's length selects nothing.
pub proof fn law_start_beyond_chapter_empty(verses: Seq<Verse>, start: u32, end: Option<u32>)
    requires
        start as int > verses.len(),
    ensures
        selection(verses, start, end) == Seq::<Verse>::empty(),
{
}

/// A chapter number that no chapter of the book carries makes extraction
/// report `VerseNotFound`, whatever the range.
pub proof fn law_absent_chapter_not_found(
    c: Corpus,
    book: Seq<char>,
    chapter: u32,
    start: u32,
    end: Option<u32>,
)
    requires
        book_index(c.books@, book, 0) < 0 || chapter_index(
            c.books@[book_index(c.books@, book, 0)].chapters@,
            chapter,
            0,
        ) < 0,
    ensures
        extract_spec(c, book, chapter, start, end) == Err::<Seq<Verse>, LookupError>(
            LookupError::VerseNotFound,
        ),
{
}

/// The default range of an omitted verse field (`start == 1`, unbounded
/// end) selects the chapter's verses in their entirety, in stored order.
pub proof fn law_full_chapter(verses: Seq<Verse>)
    ensures
        selection(verses, 1, None) =~= verses,
{
}

/// For a well-formed chapter, the whole-chapter selection is the chapter's
/// verses in ascending verse-number order.
pub proof fn law_full_chapter_ascending(ch: Chapter)
    requires
        ch.wf(),
    ensures
        selection(ch.verses@, 1, None) =~= ch.verses@,
        forall|i: int, j: int|
            0 <= i < j < ch.verses@.len() ==> #[trigger] ch.verses@[i].number
                < #[trigger] ch.verses@[j].number,
{
}

/// Looks the verses of `book` chapter `chapter` up and selects the range
/// `start..=end` by position, as [`extract_spec`] describes.
pub fn get_verses(
    corpus: &Corpus,
    book: &str,
    chapter: u32,
    start: u32,
    end: Option<u32>,
) -> (r: Result<Vec<Verse>, LookupError>)
    requires
        start >= 1,
    ensures
        match r {
            Ok(vs) => extract_spec(*corpus, book@, chapter, start, end) == Ok::<
                Seq<Verse>,
                LookupError,
            >(vs@),
            Err(e) => extract_spec(*corpus, book@, chapter, start, end) matches Err(e2) && e == e2,
        },
{
    let bookv: Vec<char> = chars_of(book);
    let nb: usize = corpus.books.len();
    let mut bi: usize = 0;
    let mut bfound: bool = false;
    while !bfound && bi < nb
        invariant
            bi <= nb,
            nb == corpus.books@.len(),
            bookv@ == book@,
            bfound ==> bi < nb && book_index(corpus.books@, book@, 0) == bi as int,
            !bfound ==> book_index(corpus.books@, book@, 0) == book_index(
                corpus.books@,
                book@,
                bi as int,
            ),
        decreases nb - bi + (if bfound {
            0int
        } else {
            1int
        }),
    {
        let bn: Vec<char> = chars_of(corpus.books[bi].name.as_str());
        if chars_eq(&bn, &bookv) {
            bfound = true;
        } else {
            bi += 1;
        }
    }
    if !bfound {
        assert(book_index(corpus.books@, book@, 0) == -1);
        return Err(LookupError::VerseNotFound);
    }
    let b: &Book = &corpus.books[bi];

    let nc: usize = b.chapters.len();
    let mut ci: usize = 0;
    let mut cfound: bool = false;
    while !cfound && ci < nc
        invariant
            ci <= nc,
            nc == b.chapters@.len(),
            cfound ==> ci < nc && chapter_index(b.chapters@, chapter, 0) == ci as int,
            !cfound ==> chapter_index(b.chapters@, chapter, 0) == chapter_index(
                b.chapters@,
                chapter,
                ci as int,
            ),
        decreases nc - ci + (if cfound {
            0int
        } else {
            1int
        }),
    {
        if b.chapters[ci].number == chapter {
            cfound = true;
        } else {
            ci += 1;
        }
    }
    if !cfound {
        assert(chapter_index(b.chapters@, chapter, 0) == -1);
        return Err(LookupError::VerseNotFound);
    }
    let ch: &Chapter = &b.chapters[ci];

    let n: usize = ch.verses.len();
    let hi: usize = match end {
        None => n,
        Some(e) => if (e as usize) <= n {
            e as usize
        } else {
            n
        },
    };
    if start as usize > hi {
        assert(selection(ch.verses@, start, end) =~= Seq::<Verse>::empty());
        return Err(LookupError::VerseNotFound);
    }
    let lo: usize = (start - 1) as usize;
    let mut out: Vec<Verse> = Vec::new();
    let mut k: usize = lo;
    while k < hi
        invariant
            lo <= k <= hi <= n,
            n == ch.verses@.len(),
            out@.len() == k - lo,
            forall|q: int| 0 <= q < out@.len() ==> #[trigger] out@[q] == ch.verses@[lo + q],
        decreases hi - k,
    {
        let v: &Verse = &ch.verses[k];
        out.push(Verse { number: v.number, text: v.text.clone() });
        k += 1;
    }
    assert(selection(ch.verses@, start, end) == ch.verses@.subrange(lo as int, hi as int));
    assert(out@ =~= selection(ch.verses@, start, end));
    Ok(out)
}

} // verus!
