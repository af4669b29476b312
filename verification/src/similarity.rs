//! String similarity for the fuzzy book-name phase of the resolver: a
//! Jaro-Winkler metric computed in fixed-point integer arithmetic, scaled so
//! that a score of [`SCALE`] means identical strings and `0` means no
//! similarity at all. The metric rewards common prefixes, which matters for
//! the abbreviated book names typical of scripture references.

use vstd::arithmetic::div_mod::{
    lemma_div_is_ordered,
    lemma_div_multiples_vanish,
    lemma_div_pos_is_pos,
};
use vstd::prelude::*;
use vstd::string::StrSliceExecFns;

use crate::corpus::MAX_NAME_CHARS;

verus! {

/// Fixed-point denominator of similarity scores: a score of `SCALE`
/// means the strings are identical.
pub const SCALE: u64 = 1000000;

/// Half-width of the window inside which two characters may match:
/// `max(l1, l2) / 2 - 1`, floored at zero.
pub open spec fn search_window(l1: int, l2: int) -> int {
    let m = if l1 >= l2 {
        l1
    } else {
        l2
    };
    if m / 2 >= 1 {
        m / 2 - 1
    } else {
        0
    }
}

/// A sequence of `n` cleared match flags.
pub open spec fn all_false(n: nat) -> Seq<bool> {
    Seq::new(n, |j: int| false)
}

/// Smallest index `r` with `j <= r < hi` such that `b[r] == c` and `r` is
/// not yet flagged as matched; `-1` if there is none.
pub open spec fn find_match(c: char, b: Seq<char>, j: int, hi: int, flags: Seq<bool>) -> int
    decreases hi - j,
{
    if j >= hi {
        -1
    } else if !flags[j] && b[j] == c {
        j
    } else {
        find_match(c, b, j + 1, hi, flags)
    }
}

/// The greedy Jaro matching pass from position `i` of `a` on: each character
/// of `a` claims the first unclaimed equal character of `b` inside its search
/// window. Returns the matched characters of `a`, in order, and the final
/// claim flags over `b`.
pub open spec fn do_match(a: Seq<char>, b: Seq<char>, i: int, flags: Seq<bool>) -> (Seq<
    char,
>, Seq<bool>)
    decreases a.len() - i,
{
    if i < 0 || i >= a.len() {
        (Seq::<char>::empty(), flags)
    } else {
        let w = search_window(a.len() as int, b.len() as int);
        let lo = if i - w > 0 {
            i - w
        } else {
            0
        };
        let hi = if i + w + 1 < b.len() {
            i + w + 1
        } else {
            b.len() as int
        };
        let j = find_match(a[i], b, lo, hi, flags);
        if j >= 0 {
            let rest = do_match(a, b, i + 1, flags.update(j, true));
            (seq![a[i]] + rest.0, rest.1)
        } else {
            do_match(a, b, i + 1, flags)
        }
    }
}

/// How many flags are set from position `j` on.
pub open spec fn count_true(flags: Seq<bool>, j: int) -> int
    decreases flags.len() - j,
{
    if j < 0 || j >= flags.len() {
        0
    } else {
        (if flags[j] {
            1int
        } else {
            0int
        }) + count_true(flags, j + 1)
    }
}

/// The flagged characters of `b` from position `j` on, in position order.
pub open spec fn select_flagged(b: Seq<char>, flags: Seq<bool>, j: int) -> Seq<char>
    decreases b.len() - j,
{
    if j < 0 || j >= b.len() {
        Seq::<char>::empty()
    } else if flags[j] {
        seq![b[j]] + select_flagged(b, flags, j + 1)
    } else {
        select_flagged(b, flags, j + 1)
    }
}

/// Number of positions from `k` on where `x` and `y` disagree.
pub open spec fn mismatches(x: Seq<char>, y: Seq<char>, k: int) -> int
    decreases x.len() - k,
{
    if k < 0 || k >= x.len() {
        0
    } else {
        (if k < y.len() && x[k] == y[k] {
            0int
        } else {
            1int
        }) + mismatches(x, y, k + 1)
    }
}

/// Length of the common prefix of `a` and `b`, capped at 4, starting from a
/// position `k` known to be inside the common prefix.
pub open spec fn common_prefix(a: Seq<char>, b: Seq<char>, k: int) -> int
    decreases 4 - k,
{
    if k < 0 || k >= 4 || k >= a.len() || k >= b.len() || a[k] != b[k] {
        k
    } else {
        common_prefix(a, b, k + 1)
    }
}

/// The similarity score of `a` and `b`, scaled by [`SCALE`]: the Jaro score
/// `(m/l1 + m/l2 + (m - t)/m) / 3` over matches `m` and transpositions
/// `t = mismatches/2`, boosted when it exceeds 0.7 by
/// `0.1 * prefix * (1 - jaro)` for a common prefix of up to 4 characters,
/// the whole rounded down to a multiple of `1/SCALE`.
pub open spec fn jaro_winkler_scaled_spec(a: Seq<char>, b: Seq<char>) -> int {
    let l1 = a.len() as int;
    let l2 = b.len() as int;
    if l1 == 0 && l2 == 0 {
        SCALE as int
    } else if l1 == 0 || l2 == 0 {
        0
    } else {
        let md = do_match(a, b, 0, all_false(b.len()));
        let m = md.0.len() as int;
        if m == 0 {
            0
        } else {
            let mm = mismatches(md.0, select_flagged(b, md.1, 0), 0);
            let t = mm / 2;
            let num = m * m * (l1 + l2) + (m - t) * (l1 * l2);
            let den = 3 * (l1 * l2) * m;
            let pl = common_prefix(a, b, 0);
            if 10 * num > 7 * den {
                (SCALE as int * ((10 - pl) * num + pl * den)) / (10 * den)
            } else {
                (SCALE as int * num) / den
            }
        }
    }
}

proof fn lemma_find_match_props(c: char, b: Seq<char>, j: int, hi: int, flags: Seq<bool>)
    requires
        0 <= j,
        hi <= b.len(),
        flags.len() == b.len(),
    ensures
        find_match(c, b, j, hi, flags) == -1 || (j <= find_match(c, b, j, hi, flags) < hi
            && b[find_match(c, b, j, hi, flags)] == c && !flags[find_match(c, b, j, hi, flags)]),
    decreases hi - j,
{
    if j < hi {
        if !(!flags[j] && b[j] == c) {
            lemma_find_match_props(c, b, j + 1, hi, flags);
        }
    }
}

proof fn lemma_count_true_update(flags: Seq<bool>, k: int, j: int)
    requires
        0 <= k < flags.len(),
        !flags[k],
        0 <= j,
    ensures
        count_true(flags.update(k, true), j) == count_true(flags, j) + if j <= k {
            1int
        } else {
            0int
        },
    decreases flags.len() - j,
{
    if j < flags.len() {
        lemma_count_true_update(flags, k, j + 1);
    }
}

proof fn lemma_count_true_bound(flags: Seq<bool>, j: int)
    requires
        0 <= j <= flags.len(),
    ensures
        0 <= count_true(flags, j) <= flags.len() - j,
    decreases flags.len() - j,
{
    if j < flags.len() {
        lemma_count_true_bound(flags, j + 1);
    }
}

proof fn lemma_count_all_false(n: nat, j: int)
    requires
        0 <= j,
    ensures
        count_true(all_false(n), j) == 0,
    decreases n - j,
{
    if j < n {
        lemma_count_all_false(n, j + 1);
    }
}

proof fn lemma_select_flagged_len(b: Seq<char>, flags: Seq<bool>, j: int)
    requires
        flags.len() == b.len(),
        0 <= j,
    ensures
        select_flagged(b, flags, j).len() == count_true(flags, j),
    decreases b.len() - j,
{
    if j < b.len() {
        lemma_select_flagged_len(b, flags, j + 1);
    }
}

proof fn lemma_mismatches_bound(x: Seq<char>, y: Seq<char>, k: int)
    requires
        0 <= k <= x.len(),
    ensures
        0 <= mismatches(x, y, k) <= x.len() - k,
    decreases x.len() - k,
{
    if k < x.len() {
        lemma_mismatches_bound(x, y, k + 1);
    }
}

/// The matching pass keeps the flag vector's length, only sets flags, and
/// sets exactly one flag per matched character.
proof fn lemma_do_match_props(a: Seq<char>, b: Seq<char>, i: int, flags: Seq<bool>)
    requires
        0 <= i <= a.len(),
        flags.len() == b.len(),
    ensures
        do_match(a, b, i, flags).1.len() == b.len(),
        do_match(a, b, i, flags).0.len() <= a.len() - i,
        count_true(do_match(a, b, i, flags).1, 0) == count_true(flags, 0) + do_match(
            a,
            b,
            i,
            flags,
        ).0.len(),
    decreases a.len() - i,
{
    if i < a.len() {
        let w = search_window(a.len() as int, b.len() as int);
        let lo = if i - w > 0 {
            i - w
        } else {
            0
        };
        let hi = if i + w + 1 < b.len() {
            i + w + 1
        } else {
            b.len() as int
        };
        lemma_find_match_props(a[i], b, lo, hi, flags);
        let j = find_match(a[i], b, lo, hi, flags);
        if j >= 0 {
            lemma_count_true_update(flags, j, 0);
            lemma_do_match_props(a, b, i + 1, flags.update(j, true));
        } else {
            lemma_do_match_props(a, b, i + 1, flags);
        }
    }
}

/// Bounds used by the fixed-point score computation: the rational Jaro
/// numerator never exceeds its denominator, and everything stays far below
/// `u128::MAX`.
proof fn lemma_score_bounds(l1: int, l2: int, m: int, t: int, pl: int)
    requires
        1 <= l1 <= 0xFFFF_FFFF,
        1 <= l2 <= 0xFFFF_FFFF,
        1 <= m <= l1,
        m <= l2,
        0 <= t <= m,
        0 <= pl <= 4,
    ensures
        m * m <= 0x1_0000_0000_0000_0000,
        0 <= l1 * l2 <= 0x1_0000_0000_0000_0000,
        0 <= m * m * (l1 + l2) <= 0x4_0000_0000_0000_0000_0000_0000,
        0 <= (m - t) * (l1 * l2) <= 0x1_0000_0000_0000_0000_0000_0000,
        m * m * (l1 + l2) + (m - t) * (l1 * l2) <= 3 * (l1 * l2) * m,
        3 <= 3 * (l1 * l2) * m <= 0x3_0000_0000_0000_0000_0000_0000,
{
    assert(m * m <= 0x1_0000_0000_0000_0000) by (nonlinear_arith)
        requires
            1 <= m <= 0xFFFF_FFFF,
    ;
    assert(1 <= l1 * l2 <= 0x1_0000_0000_0000_0000) by (nonlinear_arith)
        requires
            1 <= l1 <= 0xFFFF_FFFF,
            1 <= l2 <= 0xFFFF_FFFF,
    ;
    assert(0 <= m * m * (l1 + l2) <= 0x4_0000_0000_0000_0000_0000_0000) by (nonlinear_arith)
        requires
            1 <= m,
            m * m <= 0x1_0000_0000_0000_0000,
            1 <= l1 <= 0xFFFF_FFFF,
            1 <= l2 <= 0xFFFF_FFFF,
    ;
    assert(0 <= (m - t) * (l1 * l2) <= 0x1_0000_0000_0000_0000_0000_0000) by (nonlinear_arith)
        requires
            0 <= t <= m <= 0xFFFF_FFFF,
            0 <= l1 * l2 <= 0x1_0000_0000_0000_0000,
    ;
    assert(m * m * (l1 + l2) + (m - t) * (l1 * l2) <= 3 * (l1 * l2) * m) by (nonlinear_arith)
        requires
            1 <= m <= l1,
            m <= l2,
            0 <= t <= m,
    ;
    assert(3 <= 3 * (l1 * l2) * m <= 0x3_0000_0000_0000_0000_0000_0000) by (nonlinear_arith)
        requires
            1 <= m <= 0xFFFF_FFFF,
            1 <= l1 * l2 <= 0x1_0000_0000_0000_0000,
    ;
}

proof fn lemma_common_prefix_bounds(a: Seq<char>, b: Seq<char>, k: int)
    requires
        0 <= k <= 4,
    ensures
        k <= common_prefix(a, b, k) <= 4,
    decreases 4 - k,
{
    if !(k >= 4 || k >= a.len() || k >= b.len() || a[k] != b[k]) {
        lemma_common_prefix_bounds(a, b, k + 1);
    }
}

proof fn lemma_nonneg_parts(l1: int, l2: int, m: int, t: int, pl: int)
    requires
        1 <= m,
        1 <= l1,
        1 <= l2,
        0 <= t <= m,
        0 <= pl <= 4,
    ensures
        m * m * (l1 + l2) + (m - t) * (l1 * l2) >= 0,
        3 * (l1 * l2) * m >= 1,
        (10 - pl) * (m * m * (l1 + l2) + (m - t) * (l1 * l2)) + pl * (3 * (l1 * l2) * m) >= 0,
        SCALE as int * ((10 - pl) * (m * m * (l1 + l2) + (m - t) * (l1 * l2)) + pl * (3 * (l1 * l2)
            * m)) >= 0,
        SCALE as int * (m * m * (l1 + l2) + (m - t) * (l1 * l2)) >= 0,
{
    assert(m * m * (l1 + l2) + (m - t) * (l1 * l2) >= 0 && 3 * (l1 * l2) * m >= 1) by (
    nonlinear_arith)
        requires
            1 <= m,
            1 <= l1,
            1 <= l2,
            0 <= t <= m,
    ;
    let num = m * m * (l1 + l2) + (m - t) * (l1 * l2);
    let den = 3 * (l1 * l2) * m;
    assert((10 - pl) * num + pl * den >= 0 && SCALE as int * ((10 - pl) * num + pl * den) >= 0
        && SCALE as int * num >= 0) by (nonlinear_arith)
        requires
            num >= 0,
            den >= 1,
            0 <= pl <= 4,
    ;
}

/// A similarity score is never negative.
pub proof fn lemma_jw_nonneg(a: Seq<char>, b: Seq<char>)
    ensures
        jaro_winkler_scaled_spec(a, b) >= 0,
{
    let l1 = a.len() as int;
    let l2 = b.len() as int;
    if l1 > 0 && l2 > 0 {
        let md = do_match(a, b, 0, all_false(b.len()));
        let m = md.0.len() as int;
        if m > 0 {
            let mm = mismatches(md.0, select_flagged(b, md.1, 0), 0);
            lemma_mismatches_bound(md.0, select_flagged(b, md.1, 0), 0);
            let t = mm / 2;
            assert(0 <= t <= m);
            let num = m * m * (l1 + l2) + (m - t) * (l1 * l2);
            let den = 3 * (l1 * l2) * m;
            let pl = common_prefix(a, b, 0);
            lemma_common_prefix_bounds(a, b, 0);
            lemma_nonneg_parts(l1, l2, m, t, pl);
            lemma_div_pos_is_pos(SCALE as int * ((10 - pl) * num + pl * den), 10 * den);
            lemma_div_pos_is_pos(SCALE as int * num, den);
        }
    }
}

/// The characters of `s`, in order, as a vector.
pub fn chars_of(s: &str) -> (r: Vec<char>)
    ensures
        r@ == s@,
{
    let n: usize = s.unicode_len();
    let mut r: Vec<char> = Vec::new();
    let mut i: usize = 0;
    while i < n
        invariant
            i <= n,
            n == s@.len(),
            r@ == s@.subrange(0, i as int),
        decreases n - i,
    {
        r.push(s.get_char(i));
        i += 1;
        proof {
            assert(r@ =~= s@.subrange(0, i as int));
        }
    }
    proof {
        assert(s@.subrange(0, n as int) =~= s@);
    }
    r
}

/// The scaled Jaro-Winkler similarity of `a` and `b`: `0` means nothing in
/// common, [`SCALE`] means identical.
pub fn jaro_winkler_scaled(a: &Vec<char>, b: &Vec<char>) -> (r: u64)
    requires
        a@.len() <= MAX_NAME_CHARS,
        b@.len() <= MAX_NAME_CHARS,
    ensures
        r == jaro_winkler_scaled_spec(a@, b@),
        r <= SCALE,
{
    let l1: usize = a.len();
    let l2: usize = b.len();
    if l1 == 0 && l2 == 0 {
        return SCALE;
    }
    if l1 == 0 || l2 == 0 {
        return 0;
    }
    let maxl: usize = if l1 >= l2 {
        l1
    } else {
        l2
    };
    let w0: usize = maxl / 2;
    let w: usize = if w0 >= 1 {
        w0 - 1
    } else {
        0
    };
    assert(w == search_window(l1 as int, l2 as int));
    assert(w < 0x1_0000_0000);

    let mut flags: Vec<bool> = Vec::new();
    let mut k0: usize = 0;
    while k0 < l2
        invariant
            k0 <= l2,
            flags@.len() == k0,
            forall|q: int| 0 <= q < k0 ==> !flags@[q],
        decreases l2 - k0,
    {
        flags.push(false);
        k0 += 1;
    }
    proof {
        assert(flags@ =~= all_false(l2 as nat));
        assert(Seq::<char>::empty() + do_match(a@, b@, 0, all_false(l2 as nat)).0 =~= do_match(
            a@,
            b@,
            0,
            all_false(l2 as nat),
        ).0);
    }

    let mut m1: Vec<char> = Vec::new();
    let mut i: usize = 0;
    while i < l1
        invariant
            i <= l1,
            l1 == a@.len(),
            l2 == b@.len(),
            l1 <= MAX_NAME_CHARS,
            l2 <= MAX_NAME_CHARS,
            flags@.len() == l2,
            w < 0x1_0000_0000,
            w == search_window(l1 as int, l2 as int),
            do_match(a@, b@, 0, all_false(l2 as nat)).0 == m1@ + do_match(
                a@,
                b@,
                i as int,
                flags@,
            ).0,
            do_match(a@, b@, 0, all_false(l2 as nat)).1 == do_match(a@, b@, i as int, flags@).1,
        decreases l1 - i,
    {
        let lo: usize = if i > w {
            i - w
        } else {
            0
        };
        let hi64: u64 = i as u64 + w as u64 + 1;
        let hi: usize = if hi64 < l2 as u64 {
            hi64 as usize
        } else {
            l2
        };
        let c: char = a[i];
        let mut j: usize = lo;
        let mut found: Option<usize> = None;
        while j < hi && found.is_none()
            invariant
                lo <= j,
                hi <= l2,
                l2 == b@.len(),
                flags@.len() == l2,
                i < l1,
                l1 == a@.len(),
                c == a@[i as int],
                found is None ==> find_match(c, b@, lo as int, hi as int, flags@) == find_match(
                    c,
                    b@,
                    j as int,
                    hi as int,
                    flags@,
                ),
                found matches Some(jj) ==> lo <= jj < hi && find_match(
                    c,
                    b@,
                    lo as int,
                    hi as int,
                    flags@,
                ) == jj && !flags@[jj as int] && b@[jj as int] == c,
            decreases hi - j + (if found.is_none() {
                1int
            } else {
                0int
            }),
        {
            if !flags[j] && b[j] == c {
                found = Some(j);
            } else {
                j += 1;
            }
        }
        let ghost fprev = flags@;
        let ghost m1prev = m1@;
        match found {
            Some(jj) => {
                flags[jj] = true;
                m1.push(c);
                proof {
                    assert(do_match(a@, b@, i as int, fprev).0 =~= seq![c] + do_match(
                        a@,
                        b@,
                        i + 1,
                        fprev.update(jj as int, true),
                    ).0);
                    assert(flags@ =~= fprev.update(jj as int, true));
                    assert(m1@ =~= m1prev + seq![c]);
                    assert(m1prev + (seq![c] + do_match(a@, b@, i + 1, flags@).0) =~= (m1prev
                        + seq![c]) + do_match(a@, b@, i + 1, flags@).0);
                }
            },
            None => {
                proof {
                    assert(j >= hi);
                    assert(find_match(c, b@, j as int, hi as int, flags@) == -1);
                    assert(do_match(a@, b@, i as int, flags@).0 =~= do_match(
                        a@,
                        b@,
                        i + 1,
                        flags@,
                    ).0);
                }
            },
        }
        i += 1;
    }
    proof {
        assert(do_match(a@, b@, l1 as int, flags@).0 =~= Seq::<char>::empty());
        assert(m1@ + Seq::<char>::empty() =~= m1@);
        lemma_do_match_props(a@, b@, 0, all_false(l2 as nat));
        lemma_count_all_false(l2 as nat, 0);
        lemma_count_true_bound(flags@, 0);
    }
    let m: usize = m1.len();
    if m == 0 {
        return 0;
    }

    let mut m2: Vec<char> = Vec::new();
    let mut j2: usize = 0;
    while j2 < l2
        invariant
            j2 <= l2,
            l2 == b@.len(),
            flags@.len() == l2,
            select_flagged(b@, flags@, 0) == m2@ + select_flagged(b@, flags@, j2 as int),
        decreases l2 - j2,
    {
        let ghost m2prev = m2@;
        if flags[j2] {
            m2.push(b[j2]);
            proof {
                assert(select_flagged(b@, flags@, j2 as int) =~= seq![b@[j2 as int]]
                    + select_flagged(b@, flags@, j2 + 1));
                assert(m2prev + (seq![b@[j2 as int]] + select_flagged(b@, flags@, j2 + 1)) =~= (
                m2prev + seq![b@[j2 as int]]) + select_flagged(b@, flags@, j2 + 1));
            }
        }
        j2 += 1;
    }
    proof {
        assert(select_flagged(b@, flags@, l2 as int) =~= Seq::<char>::empty());
        assert(m2@ + Seq::<char>::empty() =~= m2@);
        lemma_select_flagged_len(b@, flags@, 0);
        lemma_mismatches_bound(m1@, m2@, 0);
    }
    assert(m2@.len() == m);

    let mut mm: usize = 0;
    let mut k: usize = 0;
    while k < m
        invariant
            k <= m,
            mm <= k,
            m == m1@.len(),
            m2@.len() == m,
            mismatches(m1@, m2@, 0) == mm + mismatches(m1@, m2@, k as int),
        decreases m - k,
    {
        if m1[k] != m2[k] {
            mm += 1;
        }
        k += 1;
    }

    let mut pl: usize = 0;
    while pl < 4 && pl < l1 && pl < l2 && a[pl] == b[pl]
        invariant
            pl <= 4,
            pl <= l1,
            pl <= l2,
            l1 == a@.len(),
            l2 == b@.len(),
            common_prefix(a@, b@, 0) == common_prefix(a@, b@, pl as int),
        decreases 4 - pl,
    {
        pl += 1;
    }
    assert(common_prefix(a@, b@, 0) == pl);

    let t: usize = mm / 2;
    proof {
        lemma_score_bounds(l1 as int, l2 as int, m as int, t as int, pl as int);
    }
    let l1u: u128 = l1 as u128;
    let l2u: u128 = l2 as u128;
    let mu: u128 = m as u128;
    let tu: u128 = t as u128;
    let plu: u128 = pl as u128;
    let num: u128 = mu * mu * (l1u + l2u) + (mu - tu) * (l1u * l2u);
    let den: u128 = 3 * (l1u * l2u) * mu;
    let scale: u128 = SCALE as u128;
    proof {
        assert((10 - plu) * num <= 10 * den && plu * den <= 4 * den && (10 - plu) * num + plu * den
            <= 10 * den) by (nonlinear_arith)
            requires
                0 <= plu <= 4,
                0 <= num <= den,
        ;
        assert(scale * ((10 - plu) * num + plu * den) <= scale * (10 * den)) by (nonlinear_arith)
            requires
                (10 - plu) * num + plu * den <= 10 * den,
                0 <= (10 - plu) * num + plu * den,
                scale == SCALE,
        ;
        assert(scale * num <= scale * den) by (nonlinear_arith)
            requires
                0 <= num <= den,
                scale == SCALE,
        ;
    }
    let q: u128 = if 10 * num > 7 * den {
        scale * ((10 - plu) * num + plu * den) / (10 * den)
    } else {
        scale * num / den
    };
    proof {
        if 10 * (num as int) > 7 * (den as int) {
            lemma_div_is_ordered(
                (scale * ((10 - plu) * num + plu * den)) as int,
                (scale * (10 * den)) as int,
                (10 * den) as int,
            );
            lemma_div_multiples_vanish(scale as int, (10 * den) as int);
        } else {
            lemma_div_is_ordered((scale * num) as int, (scale * den) as int, den as int);
            lemma_div_multiples_vanish(scale as int, den as int);
        }
        assert(q <= SCALE);
    }
    q as u64
}

} // verus!
