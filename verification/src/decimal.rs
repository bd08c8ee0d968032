//! Decimal numerals: reading an unsigned number from text and writing one.

use vstd::prelude::*;
use vstd::string::StringExecFns;

verus! {

/// `c` is one of the ten decimal digits.
pub open spec fn is_digit(c: char) -> bool {
    '0' <= c && c <= '9'
}

/// The number a decimal digit stands for; zero for any other character.
pub open spec fn digit_value(c: char) -> nat {
    if is_digit(c) {
        (c as int - '0' as int) as nat
    } else {
        0
    }
}

/// Every character of `s` is a decimal digit.
pub open spec fn all_digits(s: Seq<char>) -> bool {
    forall|i: int| 0 <= i < s.len() ==> is_digit(#[trigger] s[i])
}

/// The number that a string of digits denotes, most significant digit first.
pub open spec fn digits_value(s: Seq<char>) -> nat
    decreases s.len(),
{
    if s.len() == 0 {
        0
    } else {
        10 * digits_value(s.drop_last()) + digit_value(s.last())
    }
}

/// The text without a leading plus sign.
pub open spec fn without_plus(s: Seq<char>) -> Seq<char> {
    if s.len() > 0 && s[0] == '+' {
        s.drop_first()
    } else {
        s
    }
}

/// What a text means as an unsigned 64-bit number: an optional plus sign,
/// then at least one digit and nothing but digits, denoting a number no
/// larger than `u64::MAX`. Any other text means nothing.
pub open spec fn parse_u64_spec(s: Seq<char>) -> Option<u64> {
    let digits = without_plus(s);
    if digits.len() > 0 && all_digits(digits) && digits_value(digits) <= u64::MAX {
        Some(digits_value(digits) as u64)
    } else {
        None
    }
}

/// A string of digits denotes at least as much as any of its prefixes.
proof fn lemma_digits_value_prefix(s: Seq<char>, k: int)
    requires
        0 <= k <= s.len(),
    ensures
        digits_value(s.take(k)) <= digits_value(s),
    decreases s.len(),
{
    if k == s.len() {
        assert(s.take(k) =~= s);
    } else {
        lemma_digits_value_prefix(s.drop_last(), k);
        assert(s.drop_last().take(k) =~= s.take(k));
    }
}

/// Reads `s` as an unsigned 64-bit number.
pub fn parse_u64(s: &str) -> (parsed: Option<u64>)
    ensures
        parsed == parse_u64_spec(s@),
{
    let ghost text = s@;
    let ghost digits = without_plus(text);
    let ghost start: int = text.len() - digits.len();
    let mut value: u64 = 0;
    let mut first: bool = true;
    let mut any_digit: bool = false;
    let chars = s.chars();
    for c in it: chars
        invariant
            text == s@,
            it.seq() == text,
            digits == without_plus(text),
            start == text.len() - digits.len(),
            first <==> it.index() == 0,
            !first ==> start <= it.index(),
            !first ==> all_digits(digits.take(it.index() - start)),
            !first ==> value as nat == digits_value(digits.take(it.index() - start)),
            first ==> value == 0,
            any_digit <==> it.index() > start,
    {
        let ghost k = it.index();
        if first && c == '+' {
            // After the sign no digit has been read yet.
            assert(digits_value(digits.take(0)) == 0);
        } else if '0' <= c && c <= '9' {
            let d: u64 = (c as u64) - ('0' as u64);
            proof {
                // With this digit the digits read so far are a longer prefix
                // of all the digits, which denote no less than the prefix.
                assert(first ==> digits.take(0).len() == 0);
                assert(digits.take(k + 1 - start).drop_last() =~= digits.take(k - start));
                lemma_digits_value_prefix(digits, k + 1 - start);
            }
            if value > (u64::MAX - d) / 10 {
                return None;
            }
            value = value * 10 + d;
            any_digit = true;
            assert(d as nat == digit_value(c));
        } else {
            assert(!is_digit(digits[k - start]));
            return None;
        }
        first = false;
    }
    proof {
        assert(digits.take(digits.len() as int) =~= digits);
    }
    if any_digit {
        Some(value)
    } else {
        None
    }
}

/// The digit that stands for `d`, a number below ten.
pub open spec fn digit_char(d: nat) -> char {
    ('0' as nat + d) as char
}

/// The decimal numeral of `n`: its digits, most significant first, with no
/// leading zero except for zero itself.
pub open spec fn decimal_text(n: nat) -> Seq<char>
    decreases n,
{
    if n < 10 {
        seq![digit_char(n)]
    } else {
        decimal_text(n / 10).push(digit_char(n % 10))
    }
}

/// The decimal numeral of a signed number: a minus sign before the numeral
/// of the magnitude of a negative number, no sign otherwise.
pub open spec fn signed_decimal_text(n: int) -> Seq<char> {
    if n < 0 {
        seq!['-'] + decimal_text((-n) as nat)
    } else {
        decimal_text(n as nat)
    }
}

/// A decimal numeral consists of digits and denotes the number it was
/// written for.
pub proof fn lemma_decimal_text_value(n: nat)
    ensures
        decimal_text(n).len() > 0,
        all_digits(decimal_text(n)),
        digits_value(decimal_text(n)) == n,
    decreases n,
{
    if n < 10 {
        assert(digits_value(decimal_text(n).drop_last()) == 0);
    } else {
        lemma_decimal_text_value(n / 10);
        assert(decimal_text(n).drop_last() =~= decimal_text(n / 10));
    }
}

/// Reading the numeral written for a number gives the number back.
pub proof fn lemma_parse_decimal_text(n: u64)
    ensures
        parse_u64_spec(decimal_text(n as nat)) == Some(n),
{
    lemma_decimal_text_value(n as nat);
}

/// The one-character text of a digit.
fn digit_str(d: u64) -> (s: &'static str)
    requires
        d < 10,
    ensures
        s@ == seq![digit_char(d as nat)],
{
    let s: &'static str = match d {
        0 => "0",
        1 => "1",
        2 => "2",
        3 => "3",
        4 => "4",
        5 => "5",
        6 => "6",
        7 => "7",
        8 => "8",
        _ => "9",
    };
    proof {
        reveal_strlit("0");
        reveal_strlit("1");
        reveal_strlit("2");
        reveal_strlit("3");
        reveal_strlit("4");
        reveal_strlit("5");
        reveal_strlit("6");
        reveal_strlit("7");
        reveal_strlit("8");
        reveal_strlit("9");
    }
    s
}

/// Appends the decimal numeral of `n` to `out`.
pub fn push_decimal(out: &mut String, n: u64)
    ensures
        final(out)@ == old(out)@ + decimal_text(n as nat),
    decreases n,
{
    if n >= 10 {
        push_decimal(out, n / 10);
    }
    out.append(digit_str(n % 10));
    proof {
        let head = old(out)@;
        if n >= 10 {
            assert(head + decimal_text(n as nat / 10) + seq![digit_char(n as nat % 10)] =~= head
                + decimal_text(n as nat));
        }
    }
}

/// Appends the decimal numeral of a signed number to `out`.
pub fn push_signed_decimal(out: &mut String, n: i64)
    ensures
        final(out)@ == old(out)@ + signed_decimal_text(n as int),
{
    if n < 0 {
        let magnitude: u64 = ((-(n + 1)) as u64) + 1;
        out.append("-");
        push_decimal(out, magnitude);
        proof {
            reveal_strlit("-");
            assert(old(out)@ + "-"@ + decimal_text(magnitude as nat) =~= old(out)@ + (seq!['-']
                + decimal_text((-n) as nat)));
        }
    } else {
        push_decimal(out, n as u64);
    }
}

} // verus!
