//! Character-level helpers shared by the run-log codec and job ids:
//! the decimal representation of `u64` values, its parser, and the
//! kebab-case class of job identifiers.

use vstd::prelude::*;
use vstd::string::StrSliceExecFns;
use vstd::string::StringExecFns;

verus! {

/// A decimal digit `'0'..='9'`.
pub open spec fn is_digit_char(c: char) -> bool {
    48 <= c as u32 && c as u32 <= 57
}

/// Numeric value of a decimal digit character.
pub open spec fn digit_val(c: char) -> int {
    c as u32 - 48
}

pub open spec fn all_digits(s: Seq<char>) -> bool {
    forall|i: int| 0 <= i < s.len() ==> is_digit_char(s[i])
}

/// Value of a digit string, most significant digit first.
pub open spec fn digits_value(s: Seq<char>) -> int
    decreases s.len(),
{
    if s.len() == 0 {
        0
    } else {
        digits_value(s.drop_last()) * 10 + digit_val(s.last())
    }
}

/// The digit character for a value in `0..=9`.
pub open spec fn digit_char(d: int) -> char {
    if d == 0 { '0' }
    else if d == 1 { '1' }
    else if d == 2 { '2' }
    else if d == 3 { '3' }
    else if d == 4 { '4' }
    else if d == 5 { '5' }
    else if d == 6 { '6' }
    else if d == 7 { '7' }
    else if d == 8 { '8' }
    else { '9' }
}

/// Canonical decimal representation of a nonnegative integer:
/// no leading zero except for the number zero itself.
pub open spec fn dec_rep(n: int) -> Seq<char>
    decreases n,
{
    if n < 10 {
        seq![digit_char(n)]
    } else {
        dec_rep(n / 10).push(digit_char(n % 10))
    }
}

proof fn lemma_digit_char_val(d: int)
    requires
        0 <= d <= 9,
    ensures
        is_digit_char(digit_char(d)),
        digit_val(digit_char(d)) == d,
{
}

pub proof fn lemma_dec_rep_digits(n: int)
    requires
        n >= 0,
    ensures
        dec_rep(n).len() >= 1,
        all_digits(dec_rep(n)),
        digits_value(dec_rep(n)) == n,
    decreases n,
{
    if n < 10 {
        lemma_digit_char_val(n);
        assert(dec_rep(n) =~= seq![digit_char(n)]);
        assert(dec_rep(n).drop_last() =~= Seq::<char>::empty());
        assert(dec_rep(n).len() == 1);
        assert(digits_value(dec_rep(n).drop_last()) == 0);
        assert(dec_rep(n).last() == digit_char(n));
        assert(digits_value(dec_rep(n)) == digits_value(dec_rep(n).drop_last()) * 10 + digit_val(
            dec_rep(n).last(),
        ));
    } else {
        lemma_dec_rep_digits(n / 10);
        lemma_digit_char_val(n % 10);
        assert(dec_rep(n).drop_last() =~= dec_rep(n / 10));
        assert(dec_rep(n).last() == digit_char(n % 10));
        assert(forall|i: int|
            0 <= i < dec_rep(n).len() - 1 ==> dec_rep(n)[i] == dec_rep(n / 10)[i]);
        assert(n == (n / 10) * 10 + n % 10) by (nonlinear_arith)
            requires n >= 10;
        assert(digits_value(dec_rep(n)) == digits_value(dec_rep(n / 10)) * 10 + digit_val(
            digit_char(n % 10),
        ));
    }
}

/// Every digit string has a nonnegative value, and extending it
/// by further digits never lowers the value.
pub proof fn lemma_digits_value_nonneg(s: Seq<char>)
    requires
        all_digits(s),
    ensures
        digits_value(s) >= 0,
    decreases s.len(),
{
    if s.len() > 0 {
        assert(all_digits(s.drop_last()));
        lemma_digits_value_nonneg(s.drop_last());
        assert(digit_val(s.last()) >= 0);
    }
}

pub proof fn lemma_digits_value_prefix(s: Seq<char>, i: int)
    requires
        all_digits(s),
        0 <= i <= s.len(),
    ensures
        digits_value(s.take(i)) <= digits_value(s),
    decreases s.len() - i,
{
    if i < s.len() {
        lemma_digits_value_prefix(s, i + 1);
        let t = s.take(i + 1);
        assert(t.drop_last() =~= s.take(i));
        assert(all_digits(s.take(i)));
        lemma_digits_value_nonneg(s.take(i));
        assert(digits_value(t) == digits_value(s.take(i)) * 10 + digit_val(t.last()));
        assert(digits_value(s.take(i)) * 10 >= digits_value(s.take(i))) by (nonlinear_arith)
            requires digits_value(s.take(i)) >= 0;
        assert(digit_val(t.last()) >= 0);
    } else {
        assert(s.take(i) =~= s);
    }
}

/// What `parse_u64` accepts: a nonempty, all-digit string whose value
/// fits in a `u64`.
pub open spec fn parses_as_u64(s: Seq<char>) -> bool {
    s.len() > 0 && all_digits(s) && digits_value(s) <= u64::MAX
}

/// Parse a decimal string into a `u64`; rejects empty input, non-digit
/// characters and values over `u64::MAX`.
pub fn parse_u64(s: &str) -> (r: Option<u64>)
    ensures
        r is Some <==> parses_as_u64(s@),
        r is Some ==> r->0 == digits_value(s@),
{
    let n = s.unicode_len();
    if n == 0 {
        return None;
    }
    let mut value: u64 = 0;
    let mut i: usize = 0;
    while i < n
        invariant
            0 <= i <= n,
            n == s@.len(),
            all_digits(s@.take(i as int)),
            value == digits_value(s@.take(i as int)),
        decreases n - i,
    {
        let c = s.get_char(i);
        let cv = c as u32;
        if cv < 48 || cv > 57 {
            return None;
        }
        let d = (cv - 48) as u64;
        proof {
            assert(s@.take(i + 1).drop_last() =~= s@.take(i as int));
            assert(s@.take(i + 1).last() == s@[i as int]);
        }
        if value > (u64::MAX - d) / 10 {
            proof {
                let t = s@.take(i + 1);
                assert(digits_value(t) == value * 10 + d);
                assert(value * 10 + d > u64::MAX) by (nonlinear_arith)
                    requires value > (u64::MAX - d) / 10, 0 <= d <= 9;
                if all_digits(s@) {
                    lemma_digits_value_prefix(s@, i + 1);
                }
                assert(s@.take(s@.len() as int) =~= s@);
            }
            return None;
        }
        proof {
            assert(value * 10 + d <= u64::MAX) by (nonlinear_arith)
                requires value <= (u64::MAX - d) / 10, 0 <= d <= 9;
        }
        value = value * 10 + d;
        i = i + 1;
    }
    proof {
        assert(s@.take(n as int) =~= s@);
    }
    Some(value)
}

/// Render a `u64` as its canonical decimal string.
pub fn u64_to_string(n: u64) -> (r: String)
    ensures
        r@ == dec_rep(n as int),
    decreases n,
{
    let d = n % 10;
    let digit: &str = if d == 0 { "0" }
        else if d == 1 { "1" }
        else if d == 2 { "2" }
        else if d == 3 { "3" }
        else if d == 4 { "4" }
        else if d == 5 { "5" }
        else if d == 6 { "6" }
        else if d == 7 { "7" }
        else if d == 8 { "8" }
        else { "9" };
    proof {
        reveal_strlit("0");
        reveal_strlit("1");
        reveal_strlit("2");
        reveal_strlit("3");
        reveal_strlit("4");
        reveal_strlit("5");
        reveal_strlit("6");
        reveal_strlit("7");
        reveal_strlit("8");
        reveal_strlit("9");
        assert(digit@ =~= seq![digit_char(d as int)]);
    }
    if n < 10 {
        let r = String::from_str(digit);
        proof {
            assert(r@ =~= dec_rep(n as int));
        }
        r
    } else {
        let mut s = u64_to_string(n / 10);
        s.append(digit);
        proof {
            assert(s@ =~= dec_rep(n as int));
        }
        s
    }
}

/// Round trip: parsing the canonical decimal representation of a `u64`
/// yields the value back.
pub proof fn lemma_u64_decimal_round_trip(n: u64)
    ensures
        parses_as_u64(dec_rep(n as int)),
        digits_value(dec_rep(n as int)) == n,
{
    lemma_dec_rep_digits(n as int);
}

/// Character-for-character string equality.
#[verifier::loop_isolation(false)]
pub fn str_eq(a: &str, b: &str) -> (r: bool)
    ensures
        r == (a@ == b@),
{
    let n = a.unicode_len();
    let m = b.unicode_len();
    if n != m {
        proof {
            if a@ == b@ {
                assert(a@.len() == b@.len());
            }
        }
        return false;
    }
    let mut i: usize = 0;
    while i < n
        invariant
            0 <= i <= n,
            n == a@.len() == b@.len(),
            forall|j: int| 0 <= j < i ==> a@[j] == b@[j],
        decreases n - i,
    {
        if a.get_char(i) != b.get_char(i) {
            proof {
                if a@ == b@ {
                    assert(a@[i as int] == b@[i as int]);
                }
            }
            return false;
        }
        i = i + 1;
    }
    proof {
        assert(a@ =~= b@);
    }
    true
}

/// Decimal representation of a signed integer.
pub open spec fn int_dec_rep(n: int) -> Seq<char> {
    if n < 0 {
        seq!['-'] + dec_rep(-n)
    } else {
        dec_rep(n)
    }
}

/// Render an `i32` as its decimal string, with a leading minus sign
/// when negative.
pub fn i32_to_string(n: i32) -> (r: String)
    ensures
        r@ == int_dec_rep(n as int),
{
    if n >= 0 {
        u64_to_string(n as u64)
    } else {
        let magnitude: u64 = (-(n as i64)) as u64;
        let mut s = String::from_str("-");
        let digits = u64_to_string(magnitude);
        s.append(digits.as_str());
        proof {
            reveal_strlit("-");
            assert(s@ =~= int_dec_rep(n as int));
        }
        s
    }
}

/// A lower-case letter or decimal digit.
pub open spec fn is_lower_alnum(c: char) -> bool {
    (97 <= c as u32 && c as u32 <= 122) || is_digit_char(c)
}

/// The kebab-case class of job identifiers: one or more groups of
/// lower-case letters and digits, the groups separated by single dashes.
pub open spec fn is_kebab(s: Seq<char>) -> bool {
    &&& s.len() > 0
    &&& forall|i: int| 0 <= i < s.len() ==> (is_lower_alnum(s[i]) || s[i] == '-')
    &&& is_lower_alnum(s[0])
    &&& is_lower_alnum(s[s.len() - 1])
    &&& forall|i: int| 0 < i < s.len() ==> !(#[trigger] s[i] == '-' && s[i - 1] == '-')
}

/// Decide membership in the kebab-case class.
pub fn check_kebab(s: &str) -> (r: bool)
    ensures
        r == is_kebab(s@),
{
    let n = s.unicode_len();
    if n == 0 {
        return false;
    }
    let mut i: usize = 0;
    let mut prev_dash = false;
    while i < n
        invariant
            0 <= i <= n,
            n == s@.len(),
            forall|j: int| 0 <= j < i ==> (is_lower_alnum(s@[j]) || s@[j] == '-'),
            i > 0 ==> is_lower_alnum(s@[0]),
            forall|j: int| 0 < j < i ==> !(#[trigger] s@[j] == '-' && s@[j - 1] == '-'),
            prev_dash == (i > 0 && s@[i - 1] == '-'),
        decreases n - i,
    {
        let c = s.get_char(i);
        let cv = c as u32;
        let alnum = (97 <= cv && cv <= 122) || (48 <= cv && cv <= 57);
        if alnum {
            prev_dash = false;
        } else if c == '-' {
            if i == 0 || prev_dash {
                return false;
            }
            prev_dash = true;
        } else {
            return false;
        }
        i = i + 1;
    }
    !prev_dash
}

/// A kebab-case string holds neither separators of the run-log format
/// nor its comment marker.
pub proof fn lemma_kebab_chars(s: Seq<char>)
    requires
        is_kebab(s),
    ensures
        forall|i: int| 0 <= i < s.len() ==> s[i] != ':',
        forall|i: int| 0 <= i < s.len() ==> s[i] != '\n',
        forall|i: int| 0 <= i < s.len() ==> s[i] != '\r',
        s[0] != '#',
{
    assert(forall|i: int| 0 <= i < s.len() ==> (is_lower_alnum(s[i]) || s[i] == '-'));
    assert(':' as u32 == 58);
    assert('\n' as u32 == 10);
    assert('\r' as u32 == 13);
    assert('-' as u32 == 45);
    assert('#' as u32 == 35);
}

/// Digit strings hold none of the run-log separators either.
pub proof fn lemma_digit_chars(s: Seq<char>)
    requires
        all_digits(s),
    ensures
        forall|i: int| 0 <= i < s.len() ==> s[i] != ':',
        forall|i: int| 0 <= i < s.len() ==> s[i] != '\n',
        forall|i: int| 0 <= i < s.len() ==> s[i] != '\r',
{
    assert(':' as u32 == 58);
    assert('\n' as u32 == 10);
    assert('\r' as u32 == 13);
}

} // verus!

