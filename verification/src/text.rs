//! Verified text utilities: decimal rendering of integers, space padding,
//! substring search, and whitespace trimming, all specified over `Seq<char>`.

use vstd::prelude::*;
use vstd::string::StrSliceExecFns;
use vstd::string::StringExecFns;

verus! {

/// The character for one decimal digit value.
pub open spec fn digit_char(d: int) -> char {
    if d == 0 { '0' }
    else if d == 1 { '1' }
    else if d == 2 { '2' }
    else if d == 3 { '3' }
    else if d == 4 { '4' }
    else if d == 5 { '5' }
    else if d == 6 { '6' }
    else if d == 7 { '7' }
    else if d == 8 { '8' }
    else { '9' }
}

/// Decimal representation of a non-negative integer, most significant digit
/// first, with no leading zeros (zero itself is "0").
pub open spec fn spec_dec_digits(n: nat) -> Seq<char>
    decreases n,
{
    if n < 10 {
        seq![digit_char(n as int)]
    } else {
        spec_dec_digits(n / 10) + seq![digit_char((n % 10) as int)]
    }
}

/// Decimal representation of a signed value: a leading minus sign for
/// negative values, then the digits of the magnitude.
pub open spec fn spec_dec_i64(n: int) -> Seq<char> {
    if n >= 0 {
        spec_dec_digits(n as nat)
    } else {
        seq!['-'] + spec_dec_digits((-n) as nat)
    }
}

fn digit_str(d: u64) -> (r: &'static str)
    requires
        d < 10,
    ensures
        r@ == seq![digit_char(d as int)],
{
    proof {
        reveal_strlit("0");
        reveal_strlit("1");
        reveal_strlit("2");
        reveal_strlit("3");
        reveal_strlit("4");
        reveal_strlit("5");
        reveal_strlit("6");
        reveal_strlit("7");
        reveal_strlit("8");
        reveal_strlit("9");
    }
    let r: &'static str = match d {
        0 => "0",
        1 => "1",
        2 => "2",
        3 => "3",
        4 => "4",
        5 => "5",
        6 => "6",
        7 => "7",
        8 => "8",
        _ => "9",
    };
    proof {
        assert(r@ =~= seq![digit_char(d as int)]);
    }
    r
}

/// Render an unsigned value in decimal.
pub fn dec_u64(n: u64) -> (r: String)
    ensures
        r@ == spec_dec_digits(n as nat),
    decreases n,
{
    if n < 10 {
        digit_str(n).to_owned()
    } else {
        let mut s = dec_u64(n / 10);
        s.append(digit_str(n % 10));
        s
    }
}

/// Render a usize value in decimal.
pub fn dec_usize(n: usize) -> (r: String)
    ensures
        r@ == spec_dec_digits(n as nat),
{
    dec_u64(n as u64)
}

/// Render a signed value in decimal, with a minus sign when negative.
pub fn dec_i64(n: i64) -> (r: String)
    ensures
        r@ == spec_dec_i64(n as int),
{
    if n >= 0 {
        dec_u64(n as u64)
    } else {
        proof {
            reveal_strlit("-");
        }
        // The magnitude is computed without negating `n` directly, which
        // would overflow on the smallest value.
        let mag: u64 = ((-(n + 1)) as u64) + 1;
        assert(mag == -(n as int));
        let mut s: String = "-".to_owned();
        proof {
            assert(s@ =~= seq!['-']);
        }
        let digits = dec_u64(mag);
        s.append(digits.as_str());
        assert(s@ =~= spec_dec_i64(n as int));
        s
    }
}

/// A run of `n` spaces.
pub open spec fn spec_spaces(n: nat) -> Seq<char> {
    Seq::new(n, |i: int| ' ')
}

/// `s` padded on the right with spaces up to `width` characters; text already
/// at least that wide is returned unchanged.
pub open spec fn spec_pad_right(s: Seq<char>, width: nat) -> Seq<char> {
    if s.len() >= width {
        s
    } else {
        s + spec_spaces((width - s.len()) as nat)
    }
}

/// Pad `s` on the right with spaces to at least `width` characters.
pub fn pad_right(s: String, width: usize) -> (r: String)
    ensures
        r@ == spec_pad_right(s@, width as nat),
        r@.len() >= width,
        r@.len() >= s@.len(),
{
    proof {
        reveal_strlit(" ");
    }
    let mut r = s;
    let mut n = r.as_str().unicode_len();
    while n < width
        invariant
            n == r@.len(),
            n >= s@.len(),
            s@.len() >= width ==> n == s@.len(),
            s@.len() < width ==> n <= width,
            r@ == spec_pad_right(s@, n as nat),
        decreases width - n,
    {
        proof {
            reveal_strlit(" ");
        }
        r.append(" ");
        n = n + 1;
        assert(r@ =~= spec_pad_right(s@, n as nat));
    }
    assert(r@ =~= spec_pad_right(s@, width as nat));
    r
}

/// `needle` occurs as a contiguous run of characters inside `hay`.
pub open spec fn spec_contains_seq(hay: Seq<char>, needle: Seq<char>) -> bool {
    exists|i: int|
        0 <= i && i + needle.len() <= hay.len() && #[trigger] hay.subrange(
            i,
            i + needle.len() as int,
        ) == needle
}

/// Substring search over characters.
pub fn str_contains(hay: &str, needle: &str) -> (r: bool)
    ensures
        r == spec_contains_seq(hay@, needle@),
{
    let n = hay.unicode_len();
    let m = needle.unicode_len();
    if m > n {
        assert(!spec_contains_seq(hay@, needle@));
        return false;
    }
    let mut i: usize = 0;
    while i <= n - m
        invariant
            m <= n,
            n == hay@.len(),
            m == needle@.len(),
            i <= n - m + 1,
            forall|k: int|
                0 <= k < i ==> #[trigger] hay@.subrange(k, k + needle@.len() as int)
                    != needle@,
        decreases n - m - i + 1,
    {
        let mut j: usize = 0;
        let mut matched = true;
        proof {
            assert(hay@.subrange(i as int, i as int) =~= needle@.subrange(0, 0));
        }
        while j < m
            invariant
                i <= n - m,
                n == hay@.len(),
                m == needle@.len(),
                j <= m,
                matched <==> hay@.subrange(i as int, i as int + j) == needle@.subrange(
                    0,
                    j as int,
                ),
            decreases m - j,
        {
            let ca = hay.get_char(i + j);
            let cb = needle.get_char(j);
            proof {
                let ii = i as int;
                let jj = j as int;
                let aj = hay@.subrange(ii, ii + jj);
                let bj = needle@.subrange(0, jj);
                let a = hay@.subrange(ii, ii + jj + 1);
                let b = needle@.subrange(0, jj + 1);
                if matched && ca == cb {
                    assert forall|k: int| 0 <= k < a.len() implies a[k] == b[k] by {
                        if k < jj {
                            assert(aj[k] == bj[k]);
                        }
                    }
                    assert(a =~= b);
                } else if !matched {
                    if a == b {
                        assert forall|k: int| 0 <= k < aj.len() implies aj[k] == bj[k] by {
                            assert(a[k] == b[k]);
                        }
                        assert(aj =~= bj);
                        assert(false);
                    }
                } else {
                    if a == b {
                        assert(a[jj] == b[jj]);
                        assert(false);
                    }
                }
            }
            matched = matched && ca == cb;
            j = j + 1;
        }
        if matched {
            proof {
                assert(needle@.subrange(0, m as int) =~= needle@);
                assert(hay@.subrange(i as int, i as int + needle@.len() as int) == needle@);
            }
            return true;
        }
        proof {
            assert(needle@.subrange(0, m as int) =~= needle@);
        }
        i = i + 1;
    }
    proof {
        assert(!spec_contains_seq(hay@, needle@)) by {
            if spec_contains_seq(hay@, needle@) {
                let k = choose|k: int|
                    0 <= k && k + needle@.len() <= hay@.len() && #[trigger] hay@.subrange(
                        k,
                        k + needle@.len() as int,
                    ) == needle@;
                assert(k < i);
            }
        }
    }
    false
}

/// An ASCII whitespace character: space, tab, or one of the ASCII control
/// characters that end or break a line.
pub open spec fn is_ws(c: char) -> bool {
    c == ' ' || c == '\t' || c == '\n' || c == '\r' || c == '\u{b}' || c == '\u{c}'
}

fn ws_char(c: char) -> (r: bool)
    ensures
        r == is_ws(c),
{
    c == ' ' || c == '\t' || c == '\n' || c == '\r' || c == '\u{b}' || c == '\u{c}'
}

/// `s` with leading and trailing whitespace characters removed.
pub open spec fn spec_trim(s: Seq<char>) -> Seq<char> {
    let lo = spec_trim_lo(s);
    let hi = spec_trim_hi(s);
    if lo <= hi {
        s.subrange(lo, hi)
    } else {
        Seq::empty()
    }
}

/// Index of the first non-whitespace character, or the length when all
/// characters are whitespace.
pub open spec fn spec_trim_lo(s: Seq<char>) -> int
    decreases s.len(),
{
    if s.len() == 0 {
        0
    } else if is_ws(s[0]) {
        1 + spec_trim_lo(s.subrange(1, s.len() as int))
    } else {
        0
    }
}

/// One past the index of the last non-whitespace character, or zero when all
/// characters are whitespace.
pub open spec fn spec_trim_hi(s: Seq<char>) -> int
    decreases s.len(),
{
    if s.len() == 0 {
        0
    } else if is_ws(s[s.len() - 1]) {
        spec_trim_hi(s.subrange(0, s.len() - 1))
    } else {
        s.len() as int
    }
}

proof fn lemma_trim_lo_char(s: Seq<char>, lo: int)
    requires
        0 <= lo <= s.len(),
        forall|k: int| 0 <= k < lo ==> is_ws(s[k]),
        lo < s.len() ==> !is_ws(s[lo]),
    ensures
        spec_trim_lo(s) == lo,
    decreases s.len(),
{
    if s.len() == 0 {
    } else if is_ws(s[0]) {
        let t = s.subrange(1, s.len() as int);
        assert(lo >= 1);
        lemma_trim_lo_char(t, lo - 1);
    }
}

proof fn lemma_trim_hi_char(s: Seq<char>, hi: int)
    requires
        0 <= hi <= s.len(),
        forall|k: int| hi <= k < s.len() ==> is_ws(s[k]),
        hi > 0 ==> !is_ws(s[hi - 1]),
    ensures
        spec_trim_hi(s) == hi,
    decreases s.len(),
{
    if s.len() == 0 {
    } else if is_ws(s[s.len() - 1]) {
        let t = s.subrange(0, s.len() - 1);
        assert(hi < s.len());
        lemma_trim_hi_char(t, hi);
    }
}

/// Remove leading and trailing whitespace characters.
pub fn trim_str(s: &str) -> (r: String)
    ensures
        r@ == spec_trim(s@),
{
    let n = s.unicode_len();
    let mut lo: usize = 0;
    while lo < n && ws_char(s.get_char(lo))
        invariant
            lo <= n,
            n == s@.len(),
            forall|k: int| 0 <= k < lo ==> is_ws(s@[k]),
        decreases n - lo,
    {
        lo = lo + 1;
    }
    assert(lo == n || !is_ws(s@[lo as int]));
    proof {
        lemma_trim_lo_char(s@, lo as int);
    }
    let mut hi: usize = n;
    while hi > lo && ws_char(s.get_char(hi - 1))
        invariant
            lo <= hi <= n,
            n == s@.len(),
            forall|k: int| hi <= k < n ==> is_ws(s@[k]),
        decreases hi,
    {
        hi = hi - 1;
    }
    if hi == lo {
        proof {
            if n > 0 {
                if lo < n {
                    assert(is_ws(s@[lo as int]));
                    assert(false);
                } else {
                    lemma_trim_hi_char(s@, 0);
                }
            }
            assert(spec_trim(s@) =~= Seq::<char>::empty());
        }
        String::new()
    } else {
        proof {
            lemma_trim_hi_char(s@, hi as int);
        }
        let sub = s.substring_char(lo, hi);
        sub.to_owned()
    }
}

} // verus!
