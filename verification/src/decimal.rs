//! Decimal notation of natural numbers.

use vstd::prelude::*;
use crate::text::char_at;

verus! {

/// The character of a digit.
pub open spec fn digit_char(d: nat) -> char {
    if d == 0 {
        '0'
    } else if d == 1 {
        '1'
    } else if d == 2 {
        '2'
    } else if d == 3 {
        '3'
    } else if d == 4 {
        '4'
    } else if d == 5 {
        '5'
    } else if d == 6 {
        '6'
    } else if d == 7 {
        '7'
    } else if d == 8 {
        '8'
    } else {
        '9'
    }
}

/// The digit that a character stands for, if it is one.
pub open spec fn digit_value(c: char) -> Option<nat> {
    if c == '0' {
        Some(0)
    } else if c == '1' {
        Some(1)
    } else if c == '2' {
        Some(2)
    } else if c == '3' {
        Some(3)
    } else if c == '4' {
        Some(4)
    } else if c == '5' {
        Some(5)
    } else if c == '6' {
        Some(6)
    } else if c == '7' {
        Some(7)
    } else if c == '8' {
        Some(8)
    } else if c == '9' {
        Some(9)
    } else {
        None
    }
}

/// A number in decimal notation, without leading zeros.
pub open spec fn decimal(n: nat) -> Seq<char>
    decreases n,
{
    if n < 10 {
        seq![digit_char(n)]
    } else {
        decimal(n / 10).push(digit_char(n % 10))
    }
}

/// Whether every character is a digit.
pub open spec fn all_digits(s: Seq<char>) -> bool {
    forall|i: int| 0 <= i < s.len() ==> (#[trigger] digit_value(s[i])) is Some
}

/// The number that a run of digits denotes, leading zeros allowed.
pub open spec fn digits_value(s: Seq<char>) -> nat
    decreases s.len(),
{
    if s.len() == 0 {
        0
    } else {
        match digit_value(s.last()) {
            Some(d) => digits_value(s.drop_last()) * 10 + d,
            None => digits_value(s.drop_last()) * 10,
        }
    }
}

/// The number below 2^32 that a text of one to ten digits denotes.
pub open spec fn number_of(s: Seq<char>) -> Option<nat> {
    if 0 < s.len() <= 10 && all_digits(s) && digits_value(s) <= u32::MAX {
        Some(digits_value(s))
    } else {
        None
    }
}

/// Ten to the power `k`.
pub open spec fn pow10(k: nat) -> nat
    decreases k,
{
    if k == 0 {
        1
    } else {
        10 * pow10((k - 1) as nat)
    }
}

/// The notation of a number consists of digits and denotes that number.
pub proof fn lemma_decimal_value(n: nat)
    ensures
        all_digits(decimal(n)),
        digits_value(decimal(n)) == n,
        decimal(n).len() >= 1,
    decreases n,
{
    if n < 10 {
        assert(decimal(n).drop_last() =~= Seq::<char>::empty());
        assert(digits_value(Seq::<char>::empty()) == 0);
        assert(decimal(n).last() == digit_char(n));
        assert(digit_value(digit_char(n)) == Some(n));
    } else {
        lemma_decimal_value(n / 10);
        let d = decimal(n / 10);
        assert(decimal(n).drop_last() =~= d);
        assert(decimal(n).last() == digit_char(n % 10));
        assert(digit_value(digit_char(n % 10)) == Some(n % 10));
        assert forall|i: int| 0 <= i < decimal(n).len() implies (#[trigger] digit_value(
            decimal(n)[i],
        )) is Some by {
            if i < d.len() {
                assert(decimal(n)[i] == d[i]);
            }
        }
    }
}

/// A number below ten to the `k` is written with at most `k` digits.
pub proof fn lemma_decimal_len(n: nat, k: nat)
    requires
        k >= 1,
        n < pow10(k),
    ensures
        decimal(n).len() <= k,
    decreases k,
{
    if n >= 10 {
        assert(pow10(1) == 10) by {
            reveal_with_fuel(pow10, 2);
        }
        assert(k >= 2);
        lemma_decimal_len(n / 10, (k - 1) as nat);
    }
}

/// Reading the notation of a number below 2^32 gives the number back.
pub proof fn lemma_number_of_decimal(n: nat)
    requires
        n <= u32::MAX,
    ensures
        number_of(decimal(n)) == Some(n),
{
    lemma_decimal_value(n);
    assert(pow10(10) == 10_000_000_000nat) by {
        reveal_with_fuel(pow10, 11);
    }
    lemma_decimal_len(n, 10);
}

/// The text of one digit.
fn digit_text(d: u64) -> (t: &'static str)
    requires
        d < 10,
    ensures
        t@ == seq![digit_char(d as nat)],
{
    proof {
        reveal_strlit("0");
        reveal_strlit("1");
        reveal_strlit("2");
        reveal_strlit("3");
        reveal_strlit("4");
        reveal_strlit("5");
        reveal_strlit("6");
        reveal_strlit("7");
        reveal_strlit("8");
        reveal_strlit("9");
    }
    let t = if d == 0 {
        "0"
    } else if d == 1 {
        "1"
    } else if d == 2 {
        "2"
    } else if d == 3 {
        "3"
    } else if d == 4 {
        "4"
    } else if d == 5 {
        "5"
    } else if d == 6 {
        "6"
    } else if d == 7 {
        "7"
    } else if d == 8 {
        "8"
    } else {
        "9"
    };
    assert(t@ =~= seq![digit_char(d as nat)]);
    t
}

/// Writes a number in decimal notation.
pub fn write_decimal(n: u64) -> (text: String)
    ensures
        text@ == decimal(n as nat),
    decreases n,
{
    if n < 10 {
        String::from_str(digit_text(n))
    } else {
        let mut text = write_decimal(n / 10);
        text.append(digit_text(n % 10));
        assert(text@ =~= decimal(n as nat));
        text
    }
}

/// The digit that a character stands for, if it is one.
fn digit_of(c: char) -> (d: Option<u64>)
    ensures
        match digit_value(c) {
            Some(v) => d == Some(v as u64),
            None => d is None,
        },
{
    if c == '0' {
        Some(0)
    } else if c == '1' {
        Some(1)
    } else if c == '2' {
        Some(2)
    } else if c == '3' {
        Some(3)
    } else if c == '4' {
        Some(4)
    } else if c == '5' {
        Some(5)
    } else if c == '6' {
        Some(6)
    } else if c == '7' {
        Some(7)
    } else if c == '8' {
        Some(8)
    } else if c == '9' {
        Some(9)
    } else {
        None
    }
}

/// Reads a number below 2^32 from a text of one to ten digits.
pub fn read_number(s: &str) -> (r: Option<u32>)
    ensures
        match number_of(s@) {
            Some(v) => r == Some(v as u32),
            None => r is None,
        },
{
    let n = s.unicode_len();
    if n == 0 || n > 10 {
        return None;
    }
    let plain = s.is_ascii();
    let mut value: u64 = 0;
    let mut i: usize = 0;
    while i < n
        invariant
            n == s@.len(),
            n <= 10,
            i <= n,
            plain ==> s.is_ascii(),
            all_digits(s@.subrange(0, i as int)),
            value == digits_value(s@.subrange(0, i as int)),
            value < pow10(i as nat),
        decreases n - i,
    {
        let ghost before = s@.subrange(0, i as int);
        let ghost after = s@.subrange(0, i + 1);
        proof {
            assert(after.drop_last() =~= before);
            assert(after.last() == s@[i as int]);
            assert(pow10(10) == 10_000_000_000nat) by {
                reveal_with_fuel(pow10, 11);
            }
            lemma_pow10_grows(i as nat, 10);
        }
        match digit_of(char_at(s, plain, i)) {
            None => {
                assert(!all_digits(s@)) by {
                    assert(digit_value(s@[i as int]) is None);
                }
                return None;
            },
            Some(d) => {
                value = value * 10 + d;
                assert forall|j: int| 0 <= j < after.len() implies (#[trigger] digit_value(
                    after[j],
                )) is Some by {
                    if j < i {
                        assert(after[j] == before[j]);
                    }
                }
            },
        }
        i += 1;
    }
    assert(s@.subrange(0, n as int) =~= s@);
    if value > 0xFFFF_FFFF {
        None
    } else {
        Some(value as u32)
    }
}

/// Powers of ten grow with the exponent.
pub proof fn lemma_pow10_grows(a: nat, b: nat)
    requires
        a <= b,
    ensures
        pow10(a) <= pow10(b),
        pow10(a) >= 1,
    decreases b,
{
    if a < b {
        lemma_pow10_grows(a, (b - 1) as nat);
    } else if a > 0 {
        lemma_pow10_grows((a - 1) as nat, (a - 1) as nat);
    }
}

} // verus!
