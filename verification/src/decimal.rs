//! Decimal text for unsigned integers: writing (as `Display` for integers
//! writes them) and reading (as `str::parse::<u64>` after `str::trim` reads
//! them).

use vstd::prelude::*;
use crate::text::push_char;

verus! {

/// The ASCII character of the decimal digit `d`.
pub open spec fn digit_char(d: nat) -> char {
    (48 + d) as char
}

/// Whether `c` is an ASCII decimal digit.
pub open spec fn is_digit(c: char) -> bool {
    '0' <= c && c <= '9'
}

/// The shortest decimal writing of `n`, without sign or leading zeros.
pub open spec fn decimal(n: nat) -> Seq<char>
    decreases n,
{
    if n < 10 {
        seq![digit_char(n)]
    } else {
        decimal(n / 10).push(digit_char(n % 10))
    }
}

/// The number that a string of decimal digits denotes.
pub open spec fn digits_value(s: Seq<char>) -> nat
    decreases s.len(),
{
    if s.len() == 0 {
        0
    } else {
        digits_value(s.drop_last()) * 10 + ((s.last() as nat) - 48) as nat
    }
}

/// Whether every character of `s` is a decimal digit.
pub open spec fn all_digits(s: Seq<char>) -> bool {
    forall|i: int| 0 <= i < s.len() ==> #[trigger] is_digit(s[i])
}

/// What `str::parse::<u64>` gives for `s`: an optional `+`, then one or more
/// decimal digits whose value fits in a `u64`; anything else is an error.
pub open spec fn parse_u64_spec(s: Seq<char>) -> Option<u64> {
    let d = if s.len() > 0 && s[0] == '+' { s.drop_first() } else { s };
    if d.len() > 0 && all_digits(d) && digits_value(d) <= u64::MAX {
        Some(digits_value(d) as u64)
    } else {
        None
    }
}

/// Whether `c` has the Unicode `White_Space` property, the whitespace that
/// `char::is_whitespace` and `str::trim` recognise.
pub open spec fn is_white_space(c: char) -> bool {
    ||| ('\t' <= c && c <= '\r')
    ||| c == ' '
    ||| c == '\u{85}'
    ||| c == '\u{a0}'
    ||| c == '\u{1680}'
    ||| ('\u{2000}' <= c && c <= '\u{200a}')
    ||| c == '\u{2028}'
    ||| c == '\u{2029}'
    ||| c == '\u{202f}'
    ||| c == '\u{205f}'
    ||| c == '\u{3000}'
}

/// `s` without its leading whitespace.
pub open spec fn trim_start(s: Seq<char>) -> Seq<char>
    decreases s.len(),
{
    if s.len() > 0 && is_white_space(s[0]) {
        trim_start(s.drop_first())
    } else {
        s
    }
}

/// `s` without its trailing whitespace.
pub open spec fn trim_end(s: Seq<char>) -> Seq<char>
    decreases s.len(),
{
    if s.len() > 0 && is_white_space(s.last()) {
        trim_end(s.drop_last())
    } else {
        s
    }
}

/// `s` without leading and trailing whitespace, as `str::trim` gives it.
pub open spec fn trim(s: Seq<char>) -> Seq<char> {
    trim_end(trim_start(s))
}

/// Whether `c` has the Unicode `White_Space` property.
pub fn white_space(c: char) -> (r: bool)
    ensures
        r == is_white_space(c),
{
    ('\t' <= c && c <= '\r') || c == ' ' || c == '\u{85}' || c == '\u{a0}' || c == '\u{1680}'
        || ('\u{2000}' <= c && c <= '\u{200a}') || c == '\u{2028}' || c == '\u{2029}' || c
        == '\u{202f}' || c == '\u{205f}' || c == '\u{3000}'
}

/// The bounds of `cs` once leading and trailing whitespace are left out.
pub fn trim_bounds(cs: &Vec<char>) -> (r: (usize, usize))
    ensures
        r.0 <= r.1 <= cs@.len(),
        cs@.subrange(r.0 as int, r.1 as int) == trim(cs@),
{
    let mut lo: usize = 0;
    assert(cs@.skip(0) =~= cs@);
    while lo < cs.len() && white_space(cs[lo])
        invariant
            lo <= cs@.len(),
            trim_start(cs@) == trim_start(cs@.skip(lo as int)),
        decreases cs@.len() - lo,
    {
        assert(cs@.skip(lo as int).drop_first() =~= cs@.skip(lo + 1));
        lo = lo + 1;
    }
    assert(trim_start(cs@) == cs@.skip(lo as int));
    let mut hi: usize = cs.len();
    while hi > lo && white_space(cs[hi - 1])
        invariant
            lo <= hi <= cs@.len(),
            trim(cs@) == trim_end(cs@.subrange(lo as int, hi as int)),
        decreases hi,
    {
        assert(cs@.subrange(lo as int, hi as int).drop_last() =~= cs@.subrange(
            lo as int,
            hi - 1,
        ));
        hi = hi - 1;
    }
    (lo, hi)
}

/// The character of the decimal digit `d`.
fn digit(d: u64) -> (c: char)
    requires
        d < 10,
    ensures
        c == digit_char(d as nat),
{
    let b: u8 = 48u8 + (d as u8);
    b as char
}

/// Appends the decimal writing of `n` to `out`.
pub fn push_decimal(out: &mut String, n: u64)
    ensures
        final(out)@ == old(out)@ + decimal(n as nat),
    decreases n,
{
    if n >= 10 {
        push_decimal(out, n / 10);
    }
    push_char(out, digit(n % 10));
    proof {
        if n >= 10 {
            assert(decimal(n as nat) == decimal((n / 10) as nat).push(digit_char((n % 10) as nat)));
        } else {
            assert(decimal(n as nat) == seq![digit_char(n as nat)]);
        }
    }
}

/// The decimal writing of `n`, as `n.to_string()` gives it.
pub fn format_u64(n: u64) -> (s: String)
    ensures
        s@ == decimal(n as nat),
{
    let mut s = String::new();
    push_decimal(&mut s, n);
    assert(s@ =~= decimal(n as nat));
    s
}

/// A longer string of digits denotes at least as much as any prefix of it.
proof fn lemma_digits_value_prefix(s: Seq<char>, k: int)
    requires
        0 <= k <= s.len(),
        all_digits(s),
    ensures
        digits_value(s.take(k)) <= digits_value(s),
    decreases s.len(),
{
    if k < s.len() {
        assert(is_digit(s[s.len() - 1]));
        assert(s.drop_last().take(k) =~= s.take(k));
        assert forall|i: int| 0 <= i < s.drop_last().len() implies #[trigger] is_digit(
            s.drop_last()[i],
        ) by {
            assert(is_digit(s[i]));
        }
        lemma_digits_value_prefix(s.drop_last(), k);
    } else {
        assert(s.take(k) =~= s);
    }
}

/// Reads a `u64` from `cs[lo..hi]` as `str::parse::<u64>` reads it.
pub fn parse_u64_range(cs: &Vec<char>, lo: usize, hi: usize) -> (r: Option<u64>)
    requires
        lo <= hi <= cs@.len(),
    ensures
        r == parse_u64_spec(cs@.subrange(lo as int, hi as int)),
{
    let ghost s = cs@.subrange(lo as int, hi as int);
    let mut start = lo;
    if lo < hi && cs[lo] == '+' {
        start = lo + 1;
    }
    let ghost d = cs@.subrange(start as int, hi as int);
    assert(d == (if s.len() > 0 && s[0] == '+' { s.drop_first() } else { s }));
    if start == hi {
        return None;
    }
    let mut acc: u64 = 0;
    let mut i = start;
    while i < hi
        invariant
            lo <= start <= i <= hi <= cs@.len(),
            s == cs@.subrange(lo as int, hi as int),
            d == cs@.subrange(start as int, hi as int),
            d == (if s.len() > 0 && s[0] == '+' { s.drop_first() } else { s }),
            d.len() > 0,
            all_digits(d.take(i - start)),
            acc as nat == digits_value(d.take(i - start)),
        decreases hi - i,
    {
        let c = cs[i];
        let ghost k = i - start;
        assert(d.take(k + 1).drop_last() =~= d.take(k));
        assert(d.take(k + 1).last() == c);
        if !('0' <= c && c <= '9') {
            assert(!is_digit(d[k]));
            return None;
        }
        let dv: u64 = (c as u64) - 48;
        assert(all_digits(d.take(k + 1))) by {
            assert forall|j: int| 0 <= j < k + 1 implies #[trigger] is_digit(d.take(k + 1)[j]) by {
                if j < k {
                    assert(d.take(k + 1)[j] == d.take(k)[j]);
                }
            }
        }
        if acc > (u64::MAX - dv) / 10 {
            proof {
                assert(digits_value(d.take(k + 1)) == acc * 10 + dv);
                assert(acc * 10 + dv > u64::MAX) by (nonlinear_arith)
                    requires
                        acc > (u64::MAX - dv) / 10,
                        dv <= 9,
                ;
                if all_digits(d) {
                    lemma_digits_value_prefix(d, k + 1);
                }
            }
            return None;
        }
        assert(acc * 10 + dv <= u64::MAX) by (nonlinear_arith)
            requires
                acc <= (u64::MAX - dv) / 10,
                dv <= 9,
        ;
        acc = acc * 10 + dv;
        i = i + 1;
    }
    assert(d.take(hi - start) =~= d);
    Some(acc)
}

proof fn lemma_digit_char(d: nat)
    requires
        d < 10,
    ensures
        digit_char(d) as nat == 48 + d,
        is_digit(digit_char(d)),
{
}

/// The decimal writing of `n` begins with no `+` and holds digits only.
pub proof fn lemma_decimal_digits(n: nat)
    ensures
        decimal(n).len() > 0,
        all_digits(decimal(n)),
        digits_value(decimal(n)) == n,
    decreases n,
{
    lemma_digit_char(n % 10);
    if n >= 10 {
        lemma_decimal_digits(n / 10);
        let s = decimal(n);
        assert(s.drop_last() =~= decimal(n / 10));
        assert(s.last() == digit_char(n % 10));
        assert(digits_value(s) == digits_value(decimal(n / 10)) * 10 + (n % 10));
        assert forall|i: int| 0 <= i < s.len() implies #[trigger] is_digit(s[i]) by {
            if i < s.len() - 1 {
                assert(s[i] == decimal(n / 10)[i]);
            }
        }
    } else {
        let s = decimal(n);
        assert(s.drop_last() =~= Seq::<char>::empty());
        assert(digits_value(s) == digits_value(s.drop_last()) * 10 + n);
    }
}

/// Reading back the decimal writing of a number gives that number.
pub proof fn lemma_parse_decimal(n: u64)
    ensures
        parse_u64_spec(decimal(n as nat)) == Some(n),
{
    lemma_decimal_digits(n as nat);
    assert(is_digit(decimal(n as nat)[0]));
}

} // verus!
