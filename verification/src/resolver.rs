//! The book resolver: maps a free-text candidate name to the single best
//! matching canonical book. Exact matches on the canonical name or any alias
//! win immediately, in corpus order; otherwise the highest similarity score
//! wins, earlier books winning ties. A candidate with zero similarity to
//! every name is reported as [`LookupError::NoBookMatch`] rather than
//! silently mapped to an arbitrary book.

use vstd::prelude::*;

use crate::corpus::{Book, Corpus, MAX_NAME_CHARS};
use crate::errors::LookupError;
use crate::similarity::{chars_of, jaro_winkler_scaled, jaro_winkler_scaled_spec};

verus! {

/// The candidate equals the book's canonical name or one of its aliases.
pub open spec fn book_exact(b: Book, cand: Seq<char>) -> bool {
    b.name@ == cand || exists|j: int|
        0 <= j < b.aliases@.len() && (#[trigger] b.aliases@[j])@ == cand
}

/// Index of the first book at or after `i` that the candidate matches
/// exactly; `-1` if there is none.
pub open spec fn exact_index(books: Seq<Book>, cand: Seq<char>, i: int) -> int
    decreases books.len() - i,
{
    if i < 0 || i >= books.len() {
        -1
    } else if book_exact(books[i], cand) {
        i
    } else {
        exact_index(books, cand, i + 1)
    }
}

/// Highest similarity between the candidate and the aliases from `j` on.
pub open spec fn alias_best(aliases: Seq<String>, cand: Seq<char>, j: int) -> int
    decreases aliases.len() - j,
{
    if j < 0 || j >= aliases.len() {
        0
    } else {
        let s = jaro_winkler_scaled_spec(cand, aliases[j]@);
        let rest = alias_best(aliases, cand, j + 1);
        if s >= rest {
            s
        } else {
            rest
        }
    }
}

/// A book's score: the best similarity over its canonical name and all of
/// its aliases.
pub open spec fn book_score(b: Book, cand: Seq<char>) -> int {
    let ns = jaro_winkler_scaled_spec(cand, b.name@);
    let ab = alias_best(b.aliases@, cand, 0);
    if ns >= ab {
        ns
    } else {
        ab
    }
}

/// The fuzzy phase's fold: walking the books from `i` on with current best
/// `(bi, bs)`, a book only takes the lead with a strictly greater score, so
/// the earliest book wins ties. Returns the final `(index, score)`.
pub open spec fn best_from(books: Seq<Book>, cand: Seq<char>, i: int, bi: int, bs: int) -> (
    int,
    int,
)
    decreases books.len() - i,
{
    if i < 0 || i >= books.len() {
        (bi, bs)
    } else {
        let s = book_score(books[i], cand);
        if s > bs {
            best_from(books, cand, i + 1, i, s)
        } else {
            best_from(books, cand, i + 1, bi, bs)
        }
    }
}

/// Index of the fuzzy phase's winner; `-1` when every book scores zero.
pub open spec fn best_index(books: Seq<Book>, cand: Seq<char>) -> int {
    best_from(books, cand, 0, -1, 0).0
}

/// Exact-match phase always wins over the fuzzy phase: when a book is the
/// first whose canonical name or alias equals the candidate exactly, the
/// resolver picks that book, whatever any similarity score says.
pub proof fn law_exact_match_wins(books: Seq<Book>, cand: Seq<char>, i: int)
    requires
        0 <= i < books.len(),
        book_exact(books[i], cand),
        forall|q: int| 0 <= q < i ==> !book_exact(#[trigger] books[q], cand),
    ensures
        exact_index(books, cand, 0) == i,
{
    lemma_exact_index_first(books, cand, i, 0);
}

/// An exact-match index is `-1` or a valid book index.
pub proof fn lemma_exact_index_range(books: Seq<Book>, cand: Seq<char>, i: int)
    requires
        0 <= i,
    ensures
        exact_index(books, cand, i) == -1 || i <= exact_index(books, cand, i) < books.len(),
    decreases books.len() - i,
{
    if i < books.len() && !book_exact(books[i], cand) {
        lemma_exact_index_range(books, cand, i + 1);
    }
}

/// The fuzzy phase's winner is `-1` or a valid book index.
pub proof fn lemma_best_from_range(books: Seq<Book>, cand: Seq<char>, i: int, bi: int, bs: int)
    requires
        0 <= i,
        -1 <= bi < books.len(),
    ensures
        -1 <= best_from(books, cand, i, bi, bs).0 < books.len(),
    decreases books.len() - i,
{
    if i < books.len() {
        let s = book_score(books[i], cand);
        if s > bs {
            lemma_best_from_range(books, cand, i + 1, i, s);
        } else {
            lemma_best_from_range(books, cand, i + 1, bi, bs);
        }
    }
}

proof fn lemma_best_from_keeps(books: Seq<Book>, cand: Seq<char>, i: int, bi: int, bs: int)
    requires
        0 <= i,
        0 <= bi,
    ensures
        best_from(books, cand, i, bi, bs).0 >= 0,
    decreases books.len() - i,
{
    if i < books.len() {
        let s = book_score(books[i], cand);
        if s > bs {
            lemma_best_from_keeps(books, cand, i + 1, i, s);
        } else {
            lemma_best_from_keeps(books, cand, i + 1, bi, bs);
        }
    }
}

/// The fuzzy phase comes up empty exactly when no book from `i` on scores
/// above `bs`; with the starting floor of zero: `NoBookMatch` is reported
/// exactly when every book's score is zero.
pub proof fn law_no_match_means_zero_scores(books: Seq<Book>, cand: Seq<char>, i: int, bs: int)
    requires
        0 <= i,
        0 <= bs,
    ensures
        best_from(books, cand, i, -1, bs).0 == -1 <==> (forall|q: int|
            i <= q < books.len() ==> book_score(#[trigger] books[q], cand) <= bs),
    decreases books.len() - i,
{
    if i < books.len() {
        let s = book_score(books[i], cand);
        if s > bs {
            lemma_best_from_keeps(books, cand, i + 1, i, s);
        } else {
            law_no_match_means_zero_scores(books, cand, i + 1, bs);
        }
    }
}

proof fn lemma_alias_best_nonneg(aliases: Seq<String>, cand: Seq<char>, j: int)
    requires
        0 <= j,
    ensures
        alias_best(aliases, cand, j) >= 0,
    decreases aliases.len() - j,
{
    if j < aliases.len() {
        crate::similarity::lemma_jw_nonneg(cand, aliases[j]@);
        lemma_alias_best_nonneg(aliases, cand, j + 1);
    }
}

proof fn lemma_exact_index_first(books: Seq<Book>, cand: Seq<char>, i: int, j: int)
    requires
        0 <= j <= i < books.len(),
        book_exact(books[i], cand),
        forall|q: int| 0 <= q < i ==> !book_exact(#[trigger] books[q], cand),
    ensures
        exact_index(books, cand, j) == i,
    decreases i - j,
{
    if j < i {
        lemma_exact_index_first(books, cand, i, j + 1);
    }
}

/// True exactly when `a` and `b` hold the same characters.
pub fn chars_eq(a: &Vec<char>, b: &Vec<char>) -> (r: bool)
    ensures
        r == (a@ == b@),
{
    if a.len() != b.len() {
        return false;
    }
    let n: usize = a.len();
    let mut k: usize = 0;
    while k < n
        invariant
            k <= n,
            n == a@.len() == b@.len(),
            forall|q: int| 0 <= q < k ==> a@[q] == b@[q],
        decreases n - k,
    {
        if a[k] != b[k] {
            return false;
        }
        k += 1;
    }
    proof {
        assert(a@ =~= b@);
    }
    true
}

/// Resolves a free-text candidate book name against the corpus: the first
/// exact match on a canonical name or alias wins immediately; otherwise the
/// book with the highest similarity score wins, earlier books winning ties;
/// a candidate with zero similarity to everything yields
/// [`LookupError::NoBookMatch`].
pub fn find_book_name(corpus: &Corpus, candidate: &Vec<char>) -> (r: Result<String, LookupError>)
    requires
        corpus.wf(),
        candidate@.len() <= MAX_NAME_CHARS,
    ensures
        match r {
            Ok(name) => {
                if exact_index(corpus.books@, candidate@, 0) >= 0 {
                    name@ == corpus.books@[exact_index(corpus.books@, candidate@, 0)].name@
                } else {
                    best_index(corpus.books@, candidate@) >= 0 && name@ == corpus.books@[best_index(
                        corpus.books@,
                        candidate@,
                    )].name@
                }
            },
            Err(e) => e == LookupError::NoBookMatch && exact_index(corpus.books@, candidate@, 0)
                == -1 && best_index(corpus.books@, candidate@) == -1,
        },
{
    let nb: usize = corpus.books.len();
    let mut i: usize = 0;
    while i < nb
        invariant
            i <= nb,
            nb == corpus.books@.len(),
            corpus.wf(),
            candidate@.len() <= MAX_NAME_CHARS,
            exact_index(corpus.books@, candidate@, 0) == exact_index(
                corpus.books@,
                candidate@,
                i as int,
            ),
        decreases nb - i,
    {
        let b: &Book = &corpus.books[i];
        let bname: Vec<char> = chars_of(b.name.as_str());
        if chars_eq(&bname, candidate) {
            return Ok(b.name.clone());
        }
        let na: usize = b.aliases.len();
        let mut j: usize = 0;
        while j < na
            invariant
                j <= na,
                i < nb,
                nb == corpus.books@.len(),
                b == &corpus.books@[i as int],
                na == b.aliases@.len(),
                forall|q: int| 0 <= q < j ==> (#[trigger] b.aliases@[q])@ != candidate@,
                exact_index(corpus.books@, candidate@, 0) == exact_index(
                    corpus.books@,
                    candidate@,
                    i as int,
                ),
            decreases na - j,
        {
            let aj: Vec<char> = chars_of(b.aliases[j].as_str());
            if chars_eq(&aj, candidate) {
                assert(book_exact(corpus.books@[i as int], candidate@));
                assert(exact_index(corpus.books@, candidate@, i as int) == i as int);
                assert(exact_index(corpus.books@, candidate@, 0) == i as int);
                return Ok(b.name.clone());
            }
            j += 1;
        }
        proof {
            assert(!book_exact(corpus.books@[i as int], candidate@)) by {
                if exists|q: int|
                    0 <= q < b.aliases@.len() && (#[trigger] b.aliases@[q])@ == candidate@ {
                    let q = choose|q: int|
                        0 <= q < b.aliases@.len() && (#[trigger] b.aliases@[q])@ == candidate@;
                    assert(b.aliases@[q]@ != candidate@);
                }
            }
        }
        i += 1;
    }
    assert(exact_index(corpus.books@, candidate@, 0) == -1);

    let mut best_i: usize = 0;
    let mut best_s: u64 = 0;
    let mut have: bool = false;
    let mut i2: usize = 0;
    while i2 < nb
        invariant
            i2 <= nb,
            nb == corpus.books@.len(),
            corpus.wf(),
            candidate@.len() <= MAX_NAME_CHARS,
            have ==> best_i < nb,
            !have ==> best_s == 0,
            best_from(corpus.books@, candidate@, 0, -1, 0) == best_from(
                corpus.books@,
                candidate@,
                i2 as int,
                if have {
                    best_i as int
                } else {
                    -1
                },
                best_s as int,
            ),
        decreases nb - i2,
    {
        let b: &Book = &corpus.books[i2];
        let bname: Vec<char> = chars_of(b.name.as_str());
        let ns: u64 = jaro_winkler_scaled(candidate, &bname);
        let na: usize = b.aliases.len();
        proof {
            lemma_alias_best_nonneg(b.aliases@, candidate@, 0);
        }
        let mut amax: u64 = 0;
        let mut j: usize = 0;
        while j < na
            invariant
                j <= na,
                i2 < nb,
                nb == corpus.books@.len(),
                corpus.wf(),
                candidate@.len() <= MAX_NAME_CHARS,
                b == &corpus.books@[i2 as int],
                na == b.aliases@.len(),
                alias_best(b.aliases@, candidate@, 0) == (if amax as int >= alias_best(
                    b.aliases@,
                    candidate@,
                    j as int,
                ) {
                    amax as int
                } else {
                    alias_best(b.aliases@, candidate@, j as int)
                }),
            decreases na - j,
        {
            let av: Vec<char> = chars_of(b.aliases[j].as_str());
            let s: u64 = jaro_winkler_scaled(candidate, &av);
            if s > amax {
                amax = s;
            }
            j += 1;
        }
        let bs: u64 = if ns >= amax {
            ns
        } else {
            amax
        };
        assert(bs as int == book_score(corpus.books@[i2 as int], candidate@));
        if bs > best_s {
            best_s = bs;
            best_i = i2;
            have = true;
        }
        i2 += 1;
    }
    if have {
        assert(best_index(corpus.books@, candidate@) == best_i as int);
        Ok(corpus.books[best_i].name.clone())
    } else {
        assert(best_index(corpus.books@, candidate@) == -1);
        Err(LookupError::NoBookMatch)
    }
}

} // verus!
