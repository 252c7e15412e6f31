use vstd::arithmetic::power::*;
use vstd::prelude::*;
use vstd::string::*;

verus! {

/// Two texts, one after the other.
pub fn joined(first: &str, second: &str) -> (both: String)
    ensures
        both@ == first@ + second@,
{
    first.to_owned().concat(second)
}

/// The character of a decimal digit.
pub open spec fn digit_char(digit: nat) -> char {
    (48 + digit) as char
}

/// A number in decimal digits.
pub open spec fn decimal_digits(n: nat) -> Seq<char>
    decreases n,
{
    if n < 10 {
        seq![digit_char(n)]
    } else {
        decimal_digits(n / 10).push(digit_char(n % 10))
    }
}

/// A decimal digit as text.
fn digit(d: u16) -> (text: &'static str)
    requires
        d < 10,
    ensures
        text@ == seq![digit_char(d as nat)],
{
    proof {
        reveal_strlit("0");
        reveal_strlit("1");
        reveal_strlit("2");
        reveal_strlit("3");
        reveal_strlit("4");
        reveal_strlit("5");
        reveal_strlit("6");
        reveal_strlit("7");
        reveal_strlit("8");
        reveal_strlit("9");
    }
    match d {
        0 => "0",
        1 => "1",
        2 => "2",
        3 => "3",
        4 => "4",
        5 => "5",
        6 => "6",
        7 => "7",
        8 => "8",
        _ => "9",
    }
}

/// A number in decimal digits.
pub fn decimal(n: u16) -> (text: String)
    ensures
        text@ == decimal_digits(n as nat),
    decreases n,
{
    if n < 10 {
        digit(n).to_owned()
    } else {
        let front = decimal(n / 10);
        front.concat(digit(n % 10))
    }
}

/// Whether a byte is a decimal digit.
pub open spec fn is_digit(b: u8) -> bool {
    48 <= b <= 57
}

/// The number that decimal digits stand for.
pub open spec fn digits_value(s: Seq<u8>) -> nat
    decreases s.len(),
{
    if s.len() == 0 {
        0
    } else {
        10 * digits_value(s.drop_last()) + (s.last() - 48) as nat
    }
}

/// The bytes behind a plus sign, if there is one.
pub open spec fn unsigned_part(s: Seq<u8>) -> Seq<u8> {
    if s.len() > 0 && s[0] == 43 {
        s.skip(1)
    } else {
        s
    }
}

/// The number that is written in `s`: one or more decimal digits, perhaps with a
/// plus sign before them, that stand for a number which fits into a `usize`.
pub open spec fn number_in(s: Seq<u8>) -> Option<usize> {
    let digits = unsigned_part(s);
    if digits.len() > 0 && (forall|i: int| 0 <= i < digits.len() ==> is_digit(#[trigger] digits[i]))
        && digits_value(digits) <= usize::MAX {
        Some(digits_value(digits) as usize)
    } else {
        None
    }
}

/// The first digits of a number stand for no more than all of them do.
proof fn lemma_prefix_value(s: Seq<u8>, k: int)
    requires
        0 <= k <= s.len(),
        forall|i: int| 0 <= i < s.len() ==> is_digit(#[trigger] s[i]),
    ensures
        digits_value(s.take(k)) <= digits_value(s),
    decreases s.len(),
{
    if k == s.len() {
        assert(s.take(k) == s);
    } else {
        let rest = s.drop_last();
        assert forall|i: int| 0 <= i < rest.len() implies is_digit(#[trigger] rest[i]) by {
            assert(rest[i] == s[i]);
        }
        lemma_prefix_value(rest, k);
        assert(rest.take(k) == s.take(k));
        assert(s.last() == s[s.len() - 1]);
    }
}

/// Reads the number that is written in `s`.
pub fn parse_usize(s: &[u8]) -> (number: Option<usize>)
    ensures
        number == number_in(s@),
{
    let len: usize = s.len();
    let start: usize = if len > 0 && s[0] == 43 {
        1
    } else {
        0
    };
    let ghost digits = unsigned_part(s@);
    assert(digits == s@.skip(start as int));
    if start == len {
        return None;
    }
    let mut value: usize = 0;
    let mut i: usize = start;
    assert(digits.take(0) == Seq::<u8>::empty());
    while i < len
        invariant
            start <= i <= len,
            start <= 1,
            start < len,
            len == s@.len(),
            digits == unsigned_part(s@),
            digits == s@.skip(start as int),
            value == digits_value(digits.take(i - start)),
            forall|j: int| 0 <= j < i - start ==> is_digit(#[trigger] digits[j]),
        decreases len - i,
    {
        let b = s[i];
        assert(digits[i - start] == b);
        if b < 48 || b > 57 {
            return None;
        }
        let ghost k = i - start;
        proof {
            assert(digits.take(k + 1).drop_last() == digits.take(k));
            assert(digits.take(k + 1).last() == b);
        }
        let d: usize = (b - 48) as usize;
        if value > usize::MAX / 10 || (value == usize::MAX / 10 && d > usize::MAX % 10) {
            proof {
                assert(10 * value + d > usize::MAX);
                if forall|j: int| 0 <= j < digits.len() ==> is_digit(#[trigger] digits[j]) {
                    lemma_prefix_value(digits, k + 1);
                }
            }
            return None;
        }
        assert(10 * value + d <= usize::MAX);
        value = value * 10 + d;
        i = i + 1;
    }
    assert(digits.take(len - start) == digits);
    Some(value)
}

/// A number in decimal digits reads back as that number: it is made of digits alone, as
/// few as will do, and they stand for it.
pub proof fn law_decimal_reads_back(n: nat)
    ensures
        decimal_digits(n).len() > 0,
        forall|i: int|
            0 <= i < decimal_digits(n).len() ==> '0' <= #[trigger] decimal_digits(n)[i] <= '9',
        digits_value(decimal_digits(n).map_values(|c: char| c as u8)) == n,
        n < pow(10, decimal_digits(n).len()),
        decimal_digits(n).len() > 1 ==> n >= pow(10, (decimal_digits(n).len() - 1) as nat),
    decreases n,
{
    let s = decimal_digits(n);
    let bytes = s.map_values(|c: char| c as u8);
    lemma_pow1(10);
    if n < 10 {
        assert(bytes.drop_last() == Seq::<u8>::empty());
        assert(digits_value(bytes.drop_last()) == 0);
    } else {
        let front = decimal_digits(n / 10);
        law_decimal_reads_back(n / 10);
        assert(s.drop_last() == front);
        assert(bytes.drop_last() == front.map_values(|c: char| c as u8));
        assert forall|i: int| 0 <= i < s.len() implies '0' <= #[trigger] s[i] <= '9' by {
            if i < front.len() {
                assert(s[i] == front[i]);
            }
        }
        lemma_pow_adds(10, front.len(), 1);
        lemma_pow_adds(10, (front.len() - 1) as nat, 1);
        if front.len() == 1 {
            lemma_pow0(10);
        }
    }
}

/// Digits stand for a number in base ten: a digit alone for itself, and of two rows of
/// digits, one after the other, the first counts as many tens as the second has places.
pub proof fn law_digits_are_decimal(first: Seq<u8>, then: Seq<u8>)
    requires
        forall|i: int| 0 <= i < first.len() ==> 48 <= #[trigger] first[i] <= 57,
        forall|i: int| 0 <= i < then.len() ==> 48 <= #[trigger] then[i] <= 57,
    ensures
        digits_value(first + then) == digits_value(first) * pow(10, then.len()) + digits_value(
            then,
        ),
        then.len() == 1 ==> digits_value(then) == then[0] - 48,
        then.len() == 0 ==> digits_value(then) == 0,
    decreases then.len(),
{
    let both = first + then;
    if then.len() == 0 {
        assert(both == first);
        lemma_pow0(10);
    } else {
        let rest = then.drop_last();
        assert forall|i: int| 0 <= i < rest.len() implies 48 <= #[trigger] rest[i] <= 57 by {
            assert(rest[i] == then[i]);
        }
        law_digits_are_decimal(first, rest);
        assert(both.drop_last() == first + rest);
        assert(both.last() == then.last());
        assert(then.last() == then[then.len() - 1]);
        lemma_pow_adds(10, rest.len(), 1);
        lemma_pow1(10);
        let a = digits_value(first) as int;
        let p = pow(10, rest.len());
        assert(10 * (a * p + digits_value(rest)) == a * (p * 10) + 10 * digits_value(rest))
            by (nonlinear_arith);
        if then.len() == 1 {
            assert(rest == Seq::<u8>::empty());
        }
    }
}

/// A number is read from one or more digits, with a plus sign before them or without,
/// exactly if it is no larger than a length can be; nothing else is a number.
pub proof fn law_numbers_are_digits(s: Seq<u8>)
    ensures
        s.len() > 0 && (forall|i: int| 0 <= i < s.len() ==> 48 <= #[trigger] s[i] <= 57) ==> {
            &&& number_in(s) is Some <==> digits_value(s) <= usize::MAX
            &&& number_in(s) is Some ==> number_in(s)->0 == digits_value(s)
            &&& number_in(seq![43u8] + s) == number_in(s)
        },
        number_in(s) is Some ==> {
            &&& s.len() > 0
            &&& forall|i: int| 0 < i < s.len() ==> 48 <= #[trigger] s[i] <= 57
            &&& 48 <= s[0] <= 57 || (s[0] == 43 && s.len() > 1)
        },
{
    let signed = seq![43u8] + s;
    assert(signed.skip(1) == s);
    if s.len() > 0 && s[0] == 43 {
        let digits = s.skip(1);
        assert forall|i: int| 0 < i < s.len() && is_digit(digits[i - 1]) implies 48
            <= #[trigger] s[i] <= 57 by {
            assert(digits[i - 1] == s[i]);
        }
        if number_in(s) is Some {
            assert forall|i: int| 0 < i < s.len() implies 48 <= #[trigger] s[i] <= 57 by {
                assert(is_digit(digits[i - 1]));
            }
        }
    }
}

} // verus!
