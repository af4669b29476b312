//! The formatter: assembles extracted verses into a single response block
//! with a book heading, a chapter subheading, and one quoted line per verse
//! carrying `chapter:verse` and the verse text.

use vstd::prelude::*;
use vstd::string::{StrSliceExecFns, StringExecFns};

use crate::corpus::Verse;

verus! {

/// The decimal digit character for `d` (0 through 9).
pub open spec fn digit_char(d: int) -> char {
    if d == 0 {
        '0'
    } else if d == 1 {
        '1'
    } else if d == 2 {
        '2'
    } else if d == 3 {
        '3'
    } else if d == 4 {
        '4'
    } else if d == 5 {
        '5'
    } else if d == 6 {
        '6'
    } else if d == 7 {
        '7'
    } else if d == 8 {
        '8'
    } else {
        '9'
    }
}

/// The decimal rendering of `n`, most significant digit first, no sign and
/// no leading zero.
pub open spec fn dec_spec(n: int) -> Seq<char>
    decreases n,
{
    if n < 0 {
        Seq::<char>::empty()
    } else if n < 10 {
        seq![digit_char(n)]
    } else {
        dec_spec(n / 10) + seq![digit_char(n % 10)]
    }
}

/// One verse line: `> **<chapter>:<number>** <text>`.
pub open spec fn line_spec(chapter: u32, v: Verse) -> Seq<char> {
    "> **"@ + dec_spec(chapter as int) + ":"@ + dec_spec(v.number as int) + "** "@ + v.text@
}

/// The first `k` verse lines joined by newlines.
pub open spec fn lines_pre(chapter: u32, vs: Seq<Verse>, k: int) -> Seq<char>
    decreases k,
{
    if k <= 0 {
        Seq::<char>::empty()
    } else if k == 1 {
        line_spec(chapter, vs[0])
    } else {
        lines_pre(chapter, vs, k - 1) + "\n"@ + line_spec(chapter, vs[k - 1])
    }
}

/// The whole response block: book heading, chapter subheading, verse lines.
pub open spec fn block_spec(name: Seq<char>, chapter: u32, vs: Seq<Verse>) -> Seq<char> {
    "## "@ + name + "\n ### Capitolul "@ + dec_spec(chapter as int) + "\n "@ + lines_pre(
        chapter,
        vs,
        vs.len() as int,
    )
}

fn digit_str(d: u32) -> (r: &'static str)
    requires
        d < 10,
    ensures
        r@ == seq![digit_char(d as int)],
{
    let s: &'static str = if d == 0 {
        "0"
    } else if d == 1 {
        "1"
    } else if d == 2 {
        "2"
    } else if d == 3 {
        "3"
    } else if d == 4 {
        "4"
    } else if d == 5 {
        "5"
    } else if d == 6 {
        "6"
    } else if d == 7 {
        "7"
    } else if d == 8 {
        "8"
    } else {
        "9"
    };
    proof {
        reveal_strlit("0");
        reveal_strlit("1");
        reveal_strlit("2");
        reveal_strlit("3");
        reveal_strlit("4");
        reveal_strlit("5");
        reveal_strlit("6");
        reveal_strlit("7");
        reveal_strlit("8");
        reveal_strlit("9");
        assert(s@ =~= seq![digit_char(d as int)]);
    }
    s
}

/// Renders `n` in decimal.
pub fn u32_to_string(n: u32) -> (s: String)
    ensures
        s@ == dec_spec(n as int),
    decreases n,
{
    if n < 10 {
        String::from_str(digit_str(n))
    } else {
        let mut s: String = u32_to_string(n / 10);
        s.append(digit_str(n % 10));
        s
    }
}

fn verse_line(chs: &str, chapter: u32, v: &Verse) -> (r: String)
    requires
        chs@ == dec_spec(chapter as int),
    ensures
        r@ == line_spec(chapter, *v),
{
    let mut l: String = String::from_str("> **");
    l.append(chs);
    l.append(":");
    let vn: String = u32_to_string(v.number);
    l.append(vn.as_str());
    l.append("** ");
    l.append(v.text.as_str());
    l
}

/// Builds the response block for the extracted verses: the heading line
/// carries the canonical book name, the subheading the chapter number, and
/// each verse line its own `chapter:verse` marker and text, in the order
/// the verses were handed over.
pub fn format_passage(book: &str, chapter: u32, verses: &Vec<Verse>) -> (r: String)
    ensures
        r@ == block_spec(book@, chapter, verses@),
{
    proof {
        reveal_strlit("## ");
        reveal_strlit("\n ### Capitolul ");
        reveal_strlit("\n ");
        reveal_strlit("\n");
        reveal_strlit("> **");
        reveal_strlit(":");
        reveal_strlit("** ");
    }
    let chs: String = u32_to_string(chapter);
    let mut s: String = String::from_str("## ");
    s.append(book);
    s.append("\n ### Capitolul ");
    s.append(chs.as_str());
    s.append("\n ");
    let ghost head = "## "@ + book@ + "\n ### Capitolul "@ + dec_spec(chapter as int) + "\n "@;
    assert(s@ == head);
    proof {
        assert(head + lines_pre(chapter, verses@, 0) =~= head);
    }
    let n: usize = verses.len();
    let mut k: usize = 0;
    while k < n
        invariant
            k <= n,
            n == verses@.len(),
            chs@ == dec_spec(chapter as int),
            s@ == head + lines_pre(chapter, verses@, k as int),
        decreases n - k,
    {
        let v: &Verse = &verses[k];
        let line: String = verse_line(chs.as_str(), chapter, v);
        if k > 0 {
            s.append("\n");
        }
        s.append(line.as_str());
        proof {
            let ghost lp = lines_pre(chapter, verses@, k as int);
            let ghost ln = line_spec(chapter, verses@[k as int]);
            if k == 0 {
                assert(lp =~= Seq::<char>::empty());
                assert((head + lp) + ln =~= head + ln);
                assert(lines_pre(chapter, verses@, 1) == ln);
            } else {
                assert(((head + lp) + "\n"@) + ln =~= head + ((lp + "\n"@) + ln));
                assert(lines_pre(chapter, verses@, k + 1) == (lp + "\n"@) + ln);
            }
        }
        k += 1;
    }
    proof {
        if n == 0 {
            assert(lines_pre(chapter, verses@, 0) =~= Seq::<char>::empty());
            assert(head + Seq::<char>::empty() =~= head);
            assert(block_spec(book@, chapter, verses@) =~= head);
        }
    }
    s
}

} // verus!
