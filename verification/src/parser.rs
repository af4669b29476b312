//! The reference parser: turns a raw string of the form
//! `<book>:<chapter>[:<verse>[-<verse>]]` into a [`Reference`], trimming
//! surrounding whitespace on each field. The book token is not validated
//! here; resolution is the book resolver's job.

use vstd::prelude::*;

use crate::errors::LookupError;
use crate::similarity::chars_of;

verus! {

/// A parsed reference: a free-text book token, a chapter number, and a verse
/// range. `end == None` is the unbounded sentinel: through the last verse of
/// the chapter.
#[derive(Debug)]
pub struct Reference {
    pub book: Vec<char>,
    pub chapter: u32,
    pub start: u32,
    pub end: Option<u32>,
}

/// The whitespace characters trimmed from the ends of each field.
pub open spec fn is_space(c: char) -> bool {
    c == ' ' || c == '\t' || c == '\r' || c == '\n'
}

pub open spec fn trim_front(s: Seq<char>) -> Seq<char>
    decreases s.len(),
{
    if s.len() > 0 && is_space(s[0]) {
        trim_front(s.drop_first())
    } else {
        s
    }
}

pub open spec fn trim_back(s: Seq<char>) -> Seq<char>
    decreases s.len(),
{
    if s.len() > 0 && is_space(s.last()) {
        trim_back(s.drop_last())
    } else {
        s
    }
}

/// `s` with leading and trailing whitespace removed.
pub open spec fn trim_spec(s: Seq<char>) -> Seq<char> {
    trim_back(trim_front(s))
}

/// The `:`-separated fields of `s`, in order: always at least one field,
/// and one more field per colon.
pub open spec fn split_colon(s: Seq<char>) -> Seq<Seq<char>>
    decreases s.len(),
{
    if s.len() == 0 {
        seq![Seq::<char>::empty()]
    } else if s[0] == ':' {
        seq![Seq::<char>::empty()] + split_colon(s.drop_first())
    } else {
        let rest = split_colon(s.drop_first());
        seq![seq![s[0]] + rest[0]] + rest.drop_first()
    }
}

pub open spec fn is_digit(c: char) -> bool {
    48 <= c as u32 <= 57
}

pub open spec fn digit_val(c: char) -> int {
    c as u32 - 48
}

pub open spec fn all_digits(s: Seq<char>) -> bool {
    forall|k: int| 0 <= k < s.len() ==> is_digit(#[trigger] s[k])
}

/// The value of a digit string, most significant digit first.
pub open spec fn digits_val(s: Seq<char>) -> int
    decreases s.len(),
{
    if s.len() == 0 {
        0
    } else {
        digits_val(s.drop_last()) * 10 + digit_val(s.last())
    }
}

/// A field parses as a `u32` exactly when it is a non-empty, all-digit
/// string whose value fits.
pub open spec fn parse_u32_spec(s: Seq<char>) -> Option<u32> {
    if s.len() > 0 && all_digits(s) && digits_val(s) <= 0xFFFF_FFFF {
        Some(digits_val(s) as u32)
    } else {
        None
    }
}

/// Index of the first `-` in `s` at or after `j`; `-1` if there is none.
pub open spec fn first_dash(s: Seq<char>, j: int) -> int
    decreases s.len() - j,
{
    if j < 0 || j >= s.len() {
        -1
    } else if s[j] == '-' {
        j
    } else {
        first_dash(s, j + 1)
    }
}

/// What the verse field of a reference means: `N` is the range `N..N`,
/// `N-M` the range `N..M`; anything else, or a zero bound, is invalid.
pub open spec fn parse_verse_field(f2: Seq<char>) -> Result<(u32, Option<u32>), LookupError> {
    let d = first_dash(f2, 0);
    if d >= 0 {
        match (parse_u32_spec(f2.subrange(0, d)), parse_u32_spec(
            f2.subrange(d + 1, f2.len() as int),
        )) {
            (Some(va), Some(vb)) => if va >= 1 && vb >= 1 {
                Ok((va, Some(vb)))
            } else {
                Err(LookupError::InvalidVerseSpec)
            },
            _ => Err(LookupError::InvalidVerseSpec),
        }
    } else {
        match parse_u32_spec(f2) {
            Some(v) => if v >= 1 {
                Ok((v, Some(v)))
            } else {
                Err(LookupError::InvalidVerseSpec)
            },
            None => Err(LookupError::InvalidVerseSpec),
        }
    }
}

/// What parsing a whole reference string means. The book token is field 0
/// trimmed; an omitted verse field denotes the entire chapter (`start == 1`,
/// unbounded end).
pub open spec fn parse_spec(s: Seq<char>) -> Result<
    (Seq<char>, u32, u32, Option<u32>),
    LookupError,
> {
    let fields = split_colon(s);
    if fields.len() > 3 {
        Err(LookupError::MalformedReference)
    } else {
        let book = trim_spec(fields[0]);
        if book.len() == 0 {
            Err(LookupError::MissingBook)
        } else if fields.len() < 2 {
            Err(LookupError::MissingChapter)
        } else {
            match parse_u32_spec(trim_spec(fields[1])) {
                None => Err(LookupError::InvalidChapter),
                Some(ch) => if ch == 0 {
                    Err(LookupError::InvalidChapter)
                } else if fields.len() == 2 {
                    Ok((book, ch, 1u32, None::<u32>))
                } else {
                    match parse_verse_field(trim_spec(fields[2])) {
                        Ok(r) => Ok((book, ch, r.0, r.1)),
                        Err(e) => Err(e),
                    }
                },
            }
        }
    }
}

/// Trimming never lengthens a string.
pub proof fn lemma_trim_len(s: Seq<char>)
    ensures
        trim_spec(s).len() <= s.len(),
{
    lemma_trim_front_len(s);
    lemma_trim_back_len(trim_front(s));
}

proof fn lemma_trim_front_len(s: Seq<char>)
    ensures
        trim_front(s).len() <= s.len(),
    decreases s.len(),
{
    if s.len() > 0 && is_space(s[0]) {
        lemma_trim_front_len(s.drop_first());
    }
}

proof fn lemma_trim_back_len(s: Seq<char>)
    ensures
        trim_back(s).len() <= s.len(),
    decreases s.len(),
{
    if s.len() > 0 && is_space(s.last()) {
        lemma_trim_back_len(s.drop_last());
    }
}

/// There is always at least one field, and no field is longer than the
/// string that was split.
pub proof fn lemma_split_fields(s: Seq<char>)
    ensures
        split_colon(s).len() >= 1,
        forall|k: int|
            0 <= k < split_colon(s).len() ==> (#[trigger] split_colon(s)[k]).len() <= s.len(),
    decreases s.len(),
{
    if s.len() > 0 {
        lemma_split_fields(s.drop_first());
    }
}

fn is_space_exec(c: char) -> (r: bool)
    ensures
        r == is_space(c),
{
    c == ' ' || c == '\t' || c == '\r' || c == '\n'
}

/// `s` with leading and trailing whitespace removed.
pub fn trim_chars(s: &Vec<char>) -> (r: Vec<char>)
    ensures
        r@ == trim_spec(s@),
{
    let n: usize = s.len();
    proof {
        assert(s@.subrange(0, n as int) =~= s@);
    }
    let mut lo: usize = 0;
    while lo < n && is_space_exec(s[lo])
        invariant
            lo <= n,
            n == s@.len(),
            trim_front(s@) == trim_front(s@.subrange(lo as int, n as int)),
        decreases n - lo,
    {
        proof {
            assert(s@.subrange(lo as int, n as int).drop_first() =~= s@.subrange(
                lo + 1,
                n as int,
            ));
        }
        lo += 1;
    }
    proof {
        if lo == n {
            assert(s@.subrange(lo as int, n as int) =~= Seq::<char>::empty());
        }
        assert(trim_front(s@) == s@.subrange(lo as int, n as int));
    }
    let mut hi: usize = n;
    while hi > lo && is_space_exec(s[hi - 1])
        invariant
            lo <= hi <= n,
            n == s@.len(),
            trim_front(s@) == s@.subrange(lo as int, n as int),
            trim_spec(s@) == trim_back(s@.subrange(lo as int, hi as int)),
        decreases hi,
    {
        proof {
            assert(s@.subrange(lo as int, hi as int).drop_last() =~= s@.subrange(
                lo as int,
                hi - 1,
            ));
        }
        hi -= 1;
    }
    proof {
        if hi == lo {
            assert(s@.subrange(lo as int, hi as int) =~= Seq::<char>::empty());
        }
        assert(trim_spec(s@) == s@.subrange(lo as int, hi as int));
    }
    let mut r: Vec<char> = Vec::new();
    let mut k: usize = lo;
    while k < hi
        invariant
            lo <= k <= hi <= n,
            n == s@.len(),
            r@ == s@.subrange(lo as int, k as int),
        decreases hi - k,
    {
        r.push(s[k]);
        k += 1;
        proof {
            assert(r@ =~= s@.subrange(lo as int, k as int));
        }
    }
    r
}

/// The `:`-separated fields of `s`, as vectors, in order.
pub fn split_colon_chars(s: &Vec<char>) -> (r: Vec<Vec<char>>)
    ensures
        r@.len() == split_colon(s@).len(),
        forall|k: int| 0 <= k < r@.len() ==> (#[trigger] r@[k])@ == split_colon(s@)[k],
{
    let n: usize = s.len();
    let mut r: Vec<Vec<char>> = Vec::new();
    r.push(Vec::new());
    proof {
        assert(s@.subrange(n as int, n as int) =~= Seq::<char>::empty());
    }
    let mut i: usize = n;
    while i > 0
        invariant
            i <= n,
            n == s@.len(),
            r@.len() == split_colon(s@.subrange(i as int, n as int)).len(),
            r@.len() >= 1,
            forall|k: int|
                0 <= k < r@.len() ==> (#[trigger] r@[k])@ == split_colon(
                    s@.subrange(i as int, n as int),
                )[k],
        decreases i,
    {
        i -= 1;
        let ghost tail = s@.subrange(i + 1, n as int);
        let ghost cur = s@.subrange(i as int, n as int);
        proof {
            assert(cur.len() > 0);
            assert(cur[0] == s@[i as int]);
            assert(cur.drop_first() =~= tail);
        }
        if s[i] == ':' {
            r.insert(0, Vec::new());
            proof {
                assert(split_colon(cur) =~= seq![Seq::<char>::empty()] + split_colon(tail));
            }
        } else {
            let mut f: Vec<char> = r.remove(0);
            f.insert(0, s[i]);
            r.insert(0, f);
            proof {
                assert(split_colon(cur) =~= seq![seq![s@[i as int]] + split_colon(tail)[0]]
                    + split_colon(tail).drop_first());
                assert(f@ =~= seq![s@[i as int]] + split_colon(tail)[0]);
            }
        }
    }
    proof {
        assert(s@.subrange(0, n as int) =~= s@);
    }
    r
}

/// Parses a field as a `u32`: digits only, no sign, no surrounding space.
pub fn parse_u32_chars(s: &Vec<char>) -> (r: Option<u32>)
    ensures
        r == parse_u32_spec(s@),
{
    let n: usize = s.len();
    if n == 0 {
        return None;
    }
    let mut acc: u64 = 0;
    let mut over: bool = false;
    let mut k: usize = 0;
    while k < n
        invariant
            k <= n,
            n == s@.len(),
            forall|q: int| 0 <= q < k ==> is_digit(#[trigger] s@[q]),
            !over ==> acc == digits_val(s@.subrange(0, k as int)) && acc <= 0xFFFF_FFFF,
            over ==> digits_val(s@.subrange(0, k as int)) > 0xFFFF_FFFF,
        decreases n - k,
    {
        let c: char = s[k];
        let cu: u32 = c as u32;
        if cu < 48 || cu > 57 {
            assert(!is_digit(s@[k as int]));
            return None;
        }
        proof {
            assert(s@.subrange(0, k + 1).drop_last() =~= s@.subrange(0, k as int));
            assert(s@.subrange(0, k + 1).last() == s@[k as int]);
        }
        let d: u64 = (cu - 48) as u64;
        if !over {
            let next: u64 = acc * 10 + d;
            if next > 0xFFFF_FFFF {
                over = true;
            } else {
                acc = next;
            }
        }
        k += 1;
    }
    proof {
        assert(s@.subrange(0, n as int) =~= s@);
    }
    if over {
        None
    } else {
        Some(acc as u32)
    }
}

/// Copy of the characters `lo..hi` of `s`.
fn sub_chars(s: &Vec<char>, lo: usize, hi: usize) -> (r: Vec<char>)
    requires
        lo <= hi <= s@.len(),
    ensures
        r@ == s@.subrange(lo as int, hi as int),
{
    let mut r: Vec<char> = Vec::new();
    let mut k: usize = lo;
    while k < hi
        invariant
            lo <= k <= hi <= s@.len(),
            r@ == s@.subrange(lo as int, k as int),
        decreases hi - k,
    {
        r.push(s[k]);
        k += 1;
        proof {
            assert(r@ =~= s@.subrange(lo as int, k as int));
        }
    }
    r
}

/// Parses a raw reference string into book token, chapter and verse range,
/// exactly as [`parse_spec`] describes; never panics on malformed input.
pub fn parse_reference(reference: &str) -> (r: Result<Reference, LookupError>)
    ensures
        match r {
            Ok(rf) => parse_spec(reference@) matches Ok(t) && rf.book@ == t.0 && rf.chapter == t.1
                && rf.start == t.2 && rf.end == t.3 && rf.chapter >= 1 && rf.start >= 1 && (
            rf.end matches Some(e) ==> e >= 1) && rf.book@.len() <= reference@.len(),
            Err(e) => parse_spec(reference@) matches Err(e2) && e == e2,
        },
{
    let refv: Vec<char> = chars_of(reference);
    proof {
        lemma_split_fields(reference@);
    }
    let fields: Vec<Vec<char>> = split_colon_chars(&refv);
    if fields.len() > 3 {
        return Err(LookupError::MalformedReference);
    }
    let book: Vec<char> = trim_chars(&fields[0]);
    proof {
        lemma_trim_len(fields@[0]@);
    }
    if book.len() == 0 {
        return Err(LookupError::MissingBook);
    }
    if fields.len() < 2 {
        return Err(LookupError::MissingChapter);
    }
    let chf: Vec<char> = trim_chars(&fields[1]);
    let chapter: u32 = match parse_u32_chars(&chf) {
        None => {
            return Err(LookupError::InvalidChapter);
        },
        Some(ch) => ch,
    };
    if chapter == 0 {
        return Err(LookupError::InvalidChapter);
    }
    if fields.len() == 2 {
        return Ok(Reference { book, chapter, start: 1, end: None });
    }
    let f2: Vec<char> = trim_chars(&fields[2]);
    let n2: usize = f2.len();
    let mut dpos: usize = 0;
    while dpos < n2 && f2[dpos] != '-'
        invariant
            dpos <= n2,
            n2 == f2@.len(),
            first_dash(f2@, 0) == first_dash(f2@, dpos as int),
        decreases n2 - dpos,
    {
        dpos += 1;
    }
    if dpos < n2 {
        assert(first_dash(f2@, 0) == dpos);
        let va: Option<u32> = parse_u32_chars(&sub_chars(&f2, 0, dpos));
        let vb: Option<u32> = parse_u32_chars(&sub_chars(&f2, dpos + 1, n2));
        match (va, vb) {
            (Some(a), Some(b)) => {
                if a >= 1 && b >= 1 {
                    Ok(Reference { book, chapter, start: a, end: Some(b) })
                } else {
                    Err(LookupError::InvalidVerseSpec)
                }
            },
            _ => Err(LookupError::InvalidVerseSpec),
        }
    } else {
        assert(first_dash(f2@, 0) == -1);
        match parse_u32_chars(&f2) {
            Some(v) => {
                if v >= 1 {
                    Ok(Reference { book, chapter, start: v, end: Some(v) })
                } else {
                    Err(LookupError::InvalidVerseSpec)
                }
            },
            None => Err(LookupError::InvalidVerseSpec),
        }
    }
}

} // verus!
