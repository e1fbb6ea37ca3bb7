//! Small verified text helpers: ASCII whitespace trimming, decimal
//! rendering of numbers, and lexicographic comparison of strings.

use vstd::prelude::*;
use vstd::string::StrSliceExecFns;
use vstd::string::StringExecFns;

verus! {

/// ASCII whitespace: space, tab, line feed, carriage return.
pub open spec fn is_space(c: char) -> bool {
    c == ' ' || c == '\t' || c == '\n' || c == '\r'
}

/// Position of the first non-whitespace character at or after `i`, or the
/// length when there is none.
pub open spec fn skip_spaces(s: Seq<char>, i: int) -> int
    decreases s.len() - i,
{
    if i < 0 || i >= s.len() {
        s.len() as int
    } else if is_space(s[i]) {
        skip_spaces(s, i + 1)
    } else {
        i
    }
}

/// One past the last non-whitespace character at or before `i - 1`, or 0
/// when there is none.
pub open spec fn rskip_spaces(s: Seq<char>, i: int) -> int
    decreases i,
{
    if i <= 0 || i > s.len() {
        0
    } else if is_space(s[i - 1]) {
        rskip_spaces(s, i - 1)
    } else {
        i
    }
}

/// `s` with leading and trailing ASCII whitespace removed.
pub open spec fn trim_spec(s: Seq<char>) -> Seq<char> {
    let a = skip_spaces(s, 0);
    let b = rskip_spaces(s, s.len() as int);
    if a < b {
        s.subrange(a, b)
    } else {
        Seq::empty()
    }
}

pub proof fn lemma_skip_spaces(s: Seq<char>, i: int)
    requires
        0 <= i <= s.len(),
    ensures
        i <= skip_spaces(s, i) <= s.len(),
        skip_spaces(s, i) < s.len() ==> !is_space(s[skip_spaces(s, i)]),
    decreases s.len() - i,
{
    if i < s.len() && is_space(s[i]) {
        lemma_skip_spaces(s, i + 1);
    }
}

pub proof fn lemma_rskip_spaces(s: Seq<char>, i: int)
    requires
        0 <= i <= s.len(),
    ensures
        0 <= rskip_spaces(s, i) <= i,
        rskip_spaces(s, i) > 0 ==> !is_space(s[rskip_spaces(s, i) - 1]),
    decreases i,
{
    if i > 0 && is_space(s[i - 1]) {
        lemma_rskip_spaces(s, i - 1);
    }
}

/// A copy of `s` with leading and trailing ASCII whitespace removed.
pub fn trimmed(s: &str) -> (r: String)
    ensures
        r@ == trim_spec(s@),
{
    let len = s.unicode_len();
    let ghost sv = s@;
    let mut a: usize = 0;
    while a < len
        invariant_except_break
            0 <= a <= len,
            len == sv.len(),
            sv == s@,
            skip_spaces(sv, 0) == skip_spaces(sv, a as int),
        ensures
            0 <= a <= len,
            len == sv.len(),
            sv == s@,
            skip_spaces(sv, 0) == a as int,
        decreases len - a,
    {
        let c = s.get_char(a);
        if !(c == ' ' || c == '\t' || c == '\n' || c == '\r') {
            proof {
                assert(!is_space(sv[a as int]));
                assert(skip_spaces(sv, a as int) == a as int);
            }
            break ;
        }
        a += 1;
    }
    let mut b: usize = len;
    while b > a
        invariant_except_break
            a <= b <= len,
            len == sv.len(),
            sv == s@,
            skip_spaces(sv, 0) == a as int,
            rskip_spaces(sv, len as int) == rskip_spaces(sv, b as int),
        ensures
            a <= b <= len,
            len == sv.len(),
            sv == s@,
            skip_spaces(sv, 0) == a as int,
            b > a ==> rskip_spaces(sv, len as int) == b as int,
            b == a ==> rskip_spaces(sv, len as int) == rskip_spaces(sv, a as int),
        decreases b,
    {
        let c = s.get_char(b - 1);
        if !(c == ' ' || c == '\t' || c == '\n' || c == '\r') {
            proof {
                assert(!is_space(sv[b as int - 1]));
                assert(rskip_spaces(sv, b as int) == b as int);
            }
            break ;
        }
        b -= 1;
    }
    if a < b {
        let t = s.substring_char(a, b);
        String::from_str(t)
    } else {
        proof {
            lemma_rskip_spaces(sv, a as int);
            assert(rskip_spaces(sv, len as int) <= a as int);
        }
        String::new()
    }
}

/// The decimal digits of `n`, most significant first.
pub open spec fn dec_spec(n: int) -> Seq<char>
    decreases n,
{
    if n < 0 {
        Seq::empty()
    } else if n < 10 {
        seq![digit_char(n)]
    } else {
        dec_spec(n / 10) + seq![digit_char(n % 10)]
    }
}

/// The character of one decimal digit.
pub open spec fn digit_char(d: int) -> char {
    if d == 0 {
        '0'
    } else if d == 1 {
        '1'
    } else if d == 2 {
        '2'
    } else if d == 3 {
        '3'
    } else if d == 4 {
        '4'
    } else if d == 5 {
        '5'
    } else if d == 6 {
        '6'
    } else if d == 7 {
        '7'
    } else if d == 8 {
        '8'
    } else {
        '9'
    }
}

/// Append the decimal rendering of `n` to `out`.
pub fn push_decimal(out: &mut String, n: u64)
    ensures
        final(out)@ == old(out)@ + dec_spec(n as int),
    decreases n,
{
    if n >= 10 {
        push_decimal(out, n / 10);
    }
    let d = n % 10;
    let piece: &str = if d == 0 {
        "0"
    } else if d == 1 {
        "1"
    } else if d == 2 {
        "2"
    } else if d == 3 {
        "3"
    } else if d == 4 {
        "4"
    } else if d == 5 {
        "5"
    } else if d == 6 {
        "6"
    } else if d == 7 {
        "7"
    } else if d == 8 {
        "8"
    } else {
        "9"
    };
    proof {
        reveal_strlit("0");
        reveal_strlit("1");
        reveal_strlit("2");
        reveal_strlit("3");
        reveal_strlit("4");
        reveal_strlit("5");
        reveal_strlit("6");
        reveal_strlit("7");
        reveal_strlit("8");
        reveal_strlit("9");
        assert(piece@ =~= seq![digit_char(n as int % 10)]);
    }
    out.append(piece);
    proof {
        if n < 10 {
            assert(dec_spec(n as int) =~= seq![digit_char(n as int)]);
        } else {
            assert(dec_spec(n as int) == dec_spec(n as int / 10) + seq![digit_char(n as int % 10)]);
        }
        assert(final(out)@ =~= old(out)@ + dec_spec(n as int));
    }
}

/// The decimal rendering of `n`.
pub fn decimal_string(n: u64) -> (r: String)
    ensures
        r@ == dec_spec(n as int),
{
    let mut out = String::new();
    push_decimal(&mut out, n);
    proof {
        assert(out@ =~= dec_spec(n as int));
    }
    out
}

} // verus!
