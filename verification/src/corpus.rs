//! In-memory model of the scripture corpus: book -> {aliases, chapters ->
//! verses}. The corpus is built once (outside this library, from a static
//! source) and is read-only afterwards; every function here treats it as an
//! immutable value.

use vstd::prelude::*;
use vstd::string::StrSliceExecFns;

verus! {

/// Upper bound on the length, in characters, of the strings the similarity
/// scorer compares (book names, aliases, candidate tokens). Keeps the
/// scorer's fixed-point arithmetic inside `u128`.
pub const MAX_NAME_CHARS: usize = 0xFFFF_FFFF;

/// One verse: its declared number and its text.
pub struct Verse {
    /// The verse's own declared number, authoritative for display.
    pub number: u32,
    /// The verse text.
    pub text: String,
}

/// One chapter: its number and its verses, stored in ascending
/// verse-number order. Range slicing is positional; display uses each
/// verse's declared number.
pub struct Chapter {
    pub number: u32,
    pub verses: Vec<Verse>,
}

/// One book: its canonical name, its alternate names, and its chapters.
pub struct Book {
    pub name: String,
    pub aliases: Vec<String>,
    pub chapters: Vec<Chapter>,
}

/// The whole corpus: books keyed by canonical name.
pub struct Corpus {
    pub books: Vec<Book>,
}

impl Verse {
    pub open spec fn wf(self) -> bool {
        1 <= self.number && self.text@.len() > 0
    }
}

impl Chapter {
    pub open spec fn wf(self) -> bool {
        &&& 1 <= self.number
        &&& forall|i: int| 0 <= i < self.verses@.len() ==> (#[trigger] self.verses@[i]).wf()
        &&& forall|i: int, j: int|
            0 <= i < j < self.verses@.len() ==> #[trigger] self.verses@[i].number
                < #[trigger] self.verses@[j].number
    }
}

impl Book {
    pub open spec fn wf(self) -> bool {
        &&& 0 < self.name@.len() <= MAX_NAME_CHARS
        &&& forall|i: int|
            0 <= i < self.aliases@.len() ==> (#[trigger] self.aliases@[i])@.len()
                <= MAX_NAME_CHARS
        &&& forall|i: int| 0 <= i < self.chapters@.len() ==> (#[trigger] self.chapters@[i]).wf()
        &&& forall|i: int, j: int|
            0 <= i < j < self.chapters@.len() ==> (#[trigger] self.chapters@[i]).number
                != (#[trigger] self.chapters@[j]).number
    }
}

impl Corpus {
    /// Well-formedness: every book is well-formed and canonical names are
    /// unique keys.
    pub open spec fn wf(self) -> bool {
        &&& forall|i: int| 0 <= i < self.books@.len() ==> (#[trigger] self.books@[i]).wf()
        &&& forall|i: int, j: int|
            0 <= i < j < self.books@.len() ==> (#[trigger] self.books@[i]).name@
                != (#[trigger] self.books@[j]).name@
    }
}

proof fn lemma_ascending_pair(vs: Seq<Verse>, i: int, j: int)
    requires
        forall|k: int| 0 < k < vs.len() ==> (#[trigger] vs[k]).number > vs[k - 1].number,
        0 <= i < j < vs.len(),
    ensures
        vs[i].number < vs[j].number,
    decreases j - i,
{
    if i + 1 < j {
        lemma_ascending_pair(vs, i, j - 1);
    }
}

fn check_verses(verses: &Vec<Verse>) -> (r: bool)
    ensures
        r == ((forall|i: int| 0 <= i < verses@.len() ==> (#[trigger] verses@[i]).wf()) && (
        forall|i: int, j: int|
            0 <= i < j < verses@.len() ==> #[trigger] verses@[i].number
                < #[trigger] verses@[j].number)),
{
    let n: usize = verses.len();
    let mut k: usize = 0;
    while k < n
        invariant
            k <= n,
            n == verses@.len(),
            forall|q: int| 0 <= q < k ==> (#[trigger] verses@[q]).wf(),
            forall|q: int| 0 < q < k ==> (#[trigger] verses@[q]).number > verses@[q - 1].number,
        decreases n - k,
    {
        let v: &Verse = &verses[k];
        if v.number < 1 || v.text.as_str().unicode_len() == 0 {
            assert(!verses@[k as int].wf());
            return false;
        }
        if k > 0 && verses[k - 1].number >= v.number {
            assert(!(verses@[k as int - 1].number < verses@[k as int].number));
            return false;
        }
        k += 1;
    }
    proof {
        assert forall|i: int, j: int| 0 <= i < j < verses@.len() implies #[trigger] verses@[i].number
            < #[trigger] verses@[j].number by {
            lemma_ascending_pair(verses@, i, j);
        }
    }
    true
}

fn check_chapter(c: &Chapter) -> (r: bool)
    ensures
        r == c.wf(),
{
    if c.number < 1 {
        return false;
    }
    check_verses(&c.verses)
}

fn check_book(b: &Book) -> (r: bool)
    ensures
        r == b.wf(),
{
    let nl: usize = b.name.as_str().unicode_len();
    if nl == 0 || nl > MAX_NAME_CHARS {
        return false;
    }
    let na: usize = b.aliases.len();
    let mut j: usize = 0;
    while j < na
        invariant
            j <= na,
            na == b.aliases@.len(),
            forall|q: int|
                0 <= q < j ==> (#[trigger] b.aliases@[q])@.len() <= MAX_NAME_CHARS,
        decreases na - j,
    {
        if b.aliases[j].as_str().unicode_len() > MAX_NAME_CHARS {
            return false;
        }
        j += 1;
    }
    let nc: usize = b.chapters.len();
    let mut k: usize = 0;
    while k < nc
        invariant
            k <= nc,
            nc == b.chapters@.len(),
            forall|q: int| 0 <= q < k ==> (#[trigger] b.chapters@[q]).wf(),
        decreases nc - k,
    {
        if !check_chapter(&b.chapters[k]) {
            return false;
        }
        k += 1;
    }
    let mut p: usize = 0;
    while p < nc
        invariant
            p <= nc,
            nc == b.chapters@.len(),
            forall|x: int, y: int|
                0 <= x < y < nc && x < p ==> (#[trigger] b.chapters@[x]).number
                    != (#[trigger] b.chapters@[y]).number,
        decreases nc - p,
    {
        let mut q: usize = p + 1;
        while q < nc
            invariant
                p < q || q == p + 1,
                p < nc,
                q <= nc,
                nc == b.chapters@.len(),
                forall|y: int|
                    p < y < q ==> (#[trigger] b.chapters@[y]).number != b.chapters@[p as int].number,
            decreases nc - q,
        {
            if b.chapters[p].number == b.chapters[q].number {
                return false;
            }
            q += 1;
        }
        p += 1;
    }
    true
}

/// Validates a corpus once, at load time: returns exactly whether it is
/// well-formed. A corpus that fails this check must not be handed to the
/// engine; per the error-handling design that is a fatal startup
/// condition, not a per-request error.
pub fn check_corpus(corpus: &Corpus) -> (r: bool)
    ensures
        r == corpus.wf(),
{
    let nb: usize = corpus.books.len();
    let mut i: usize = 0;
    while i < nb
        invariant
            i <= nb,
            nb == corpus.books@.len(),
            forall|q: int| 0 <= q < i ==> (#[trigger] corpus.books@[q]).wf(),
        decreases nb - i,
    {
        if !check_book(&corpus.books[i]) {
            return false;
        }
        i += 1;
    }
    let mut p: usize = 0;
    while p < nb
        invariant
            p <= nb,
            nb == corpus.books@.len(),
            forall|x: int, y: int|
                0 <= x < y < nb && x < p ==> (#[trigger] corpus.books@[x]).name@
                    != (#[trigger] corpus.books@[y]).name@,
        decreases nb - p,
    {
        let pn: Vec<char> = crate::similarity::chars_of(corpus.books[p].name.as_str());
        let mut q: usize = p + 1;
        while q < nb
            invariant
                q == p + 1 || p < q,
                p < nb,
                q <= nb,
                nb == corpus.books@.len(),
                pn@ == corpus.books@[p as int].name@,
                forall|y: int|
                    p < y < q ==> (#[trigger] corpus.books@[y]).name@ != corpus.books@[p as int].name@,
            decreases nb - q,
        {
            let qn: Vec<char> = crate::similarity::chars_of(corpus.books[q].name.as_str());
            if crate::resolver::chars_eq(&pn, &qn) {
                return false;
            }
            q += 1;
        }
        p += 1;
    }
    true
}

} // verus!
