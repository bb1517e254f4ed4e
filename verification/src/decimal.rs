//! Integers as decimal text, the way configuration files hold them.

use crate::text::push_char;
use vstd::prelude::*;
use vstd::string::StrSliceExecFns;

verus! {

/// Whether a character is a decimal digit.
pub open spec fn is_digit(c: char) -> bool {
    '0' <= c <= '9'
}

/// The decimal digit for `d < 10`.
pub open spec fn digit_char(d: nat) -> char {
    (0x30 + d) as u8 as char
}

/// Whether a text is made of decimal digits only.
pub open spec fn all_digits(text: Seq<char>) -> bool {
    forall|i: int| 0 <= i < text.len() ==> is_digit(#[trigger] text[i])
}

/// The number that decimal digits spell; leading zeros count for nothing.
pub open spec fn digits_value(text: Seq<char>) -> nat
    decreases text.len(),
{
    if text.len() == 0 {
        0
    } else {
        digits_value(text.drop_last()) * 10 + (text.last() as u8 - 0x30) as nat
    }
}

/// The integer that a text spells: decimal digits, at least one, behind an
/// optional `+` or `-`. Any other text spells none.
pub open spec fn int_of_text(text: Seq<char>) -> Option<int> {
    let signed = text.len() > 0 && (text[0] == '-' || text[0] == '+');
    let digits = if signed {
        text.skip(1)
    } else {
        text
    };
    if digits.len() == 0 || !all_digits(digits) {
        None
    } else if text[0] == '-' {
        Some(-(digits_value(digits) as int))
    } else {
        Some(digits_value(digits) as int)
    }
}

/// The 32-bit integer that a text spells, where it spells one that fits.
pub open spec fn i32_of_text(text: Seq<char>) -> Option<i32> {
    match int_of_text(text) {
        Some(v) => if i32::MIN <= v <= i32::MAX {
            Some(v as i32)
        } else {
            None
        },
        None => None,
    }
}

/// The decimal digits of a number, without leading zeros; `0` for zero.
pub open spec fn digits_of(n: nat) -> Seq<char>
    decreases n,
{
    if n < 10 {
        seq![digit_char(n)]
    } else {
        digits_of(n / 10).push(digit_char(n % 10))
    }
}

/// The decimal text of an integer, with a `-` in front where it is
/// negative.
pub open spec fn int_text(v: int) -> Seq<char> {
    if v < 0 {
        seq!['-'] + digits_of((-v) as nat)
    } else {
        digits_of(v as nat)
    }
}

/// The digits of a number are digits, and spell it.
pub proof fn lemma_digits_round_trip(n: nat)
    ensures
        digits_of(n).len() > 0,
        all_digits(digits_of(n)),
        digits_value(digits_of(n)) == n,
    decreases n,
{
    if n < 10 {
        let text = digits_of(n);
        assert(text.drop_last() =~= Seq::<char>::empty());
        assert(digits_value(text.drop_last()) == 0);
    } else {
        lemma_digits_round_trip(n / 10);
        let text = digits_of(n);
        assert(text.drop_last() =~= digits_of(n / 10));
    }
}

/// The text of an integer spells that integer.
pub proof fn lemma_int_text_round_trip(v: int)
    ensures
        int_of_text(int_text(v)) == Some(v),
{
    if v < 0 {
        let n = (-v) as nat;
        lemma_digits_round_trip(n);
        assert(int_text(v).skip(1) =~= digits_of(n));
    } else {
        lemma_digits_round_trip(v as nat);
        let text = digits_of(v as nat);
        assert(is_digit(text[0]));
    }
}

/// What is written for a 32-bit integer is read as that integer.
pub proof fn lemma_i32_text_round_trip(v: i32)
    ensures
        i32_of_text(int_text(v as int)) == Some(v),
{
    lemma_int_text_round_trip(v as int);
}

/// More digits do not spell less.
proof fn lemma_digits_value_grows(text: Seq<char>, i: int)
    requires
        0 <= i <= text.len(),
    ensures
        digits_value(text.take(i)) <= digits_value(text),
    decreases text.len() - i,
{
    if i < text.len() {
        lemma_digits_value_grows(text, i + 1);
        assert(text.take(i + 1).drop_last() =~= text.take(i));
    } else {
        assert(text.take(i) =~= text);
    }
}

/// Reads a 32-bit integer from its decimal text.
pub fn parse_i32(text: &str) -> (r: Option<i32>)
    ensures
        r == i32_of_text(text@),
{
    if !text.is_ascii() {
        proof {
            let i = choose|i: int|
                0 <= i < text@.len() && !('\0' <= #[trigger] text@[i] <= '\u{7f}');
            if i > 0 || !(text@[0] == '-' || text@[0] == '+') {
                let signed = text@.len() > 0 && (text@[0] == '-' || text@[0] == '+');
                if signed {
                    assert(!is_digit(text@.skip(1)[i - 1]));
                } else {
                    assert(!is_digit(text@[i]));
                }
            }
        }
        return None;
    }
    let n = text.unicode_len();
    if n == 0 {
        return None;
    }
    let first = text.get_ascii(0);
    let negative = first == 0x2D;
    let start: usize = if first == 0x2D || first == 0x2B {
        1
    } else {
        0
    };
    proof {
        assert(text@[0] as u8 == first);
        assert('\0' <= text@[0] <= '\u{7f}');
        assert(negative == (text@[0] == '-'));
        assert((start == 1) == (text@[0] == '-' || text@[0] == '+'));
    }
    if start == n {
        return None;
    }
    assert(text@.skip(0) =~= text@);
    let ghost digits = if start == 1 {
        text@.skip(1)
    } else {
        text@
    };
    let mut acc: i64 = 0;
    let mut i: usize = start;
    proof {
        assert(digits.take(0) =~= Seq::<char>::empty());
    }
    while i < n
        invariant
            start <= i <= n,
            start < n,
            n == text@.len(),
            (start == 1) == (text@[0] == '-' || text@[0] == '+'),
            negative == (text@[0] == '-'),
            start <= 1,
            text.is_ascii(),
            digits == text@.skip(start as int),
            digits == (if start == 1 {
                text@.skip(1)
            } else {
                text@
            }),
            all_digits(digits.take(i - start)),
            acc == digits_value(digits.take(i - start)),
            0 <= acc <= 0x8000_0000,
        decreases n - i,
    {
        let b = text.get_ascii(i);
        proof {
            assert(text@[i as int] as u8 == b);
            assert('\0' <= text@[i as int] <= '\u{7f}');
            assert(is_digit(text@[i as int]) == (0x30 <= b <= 0x39));
            assert(digits.take(i - start + 1).drop_last() =~= digits.take(i - start));
            assert(digits.take(i - start + 1).last() == text@[i as int]);
            assert(digits[i - start] == text@[i as int]);
        }
        if b < 0x30 || b > 0x39 {
            assert(!is_digit(digits[i - start]));
            return None;
        }
        acc = acc * 10 + (b - 0x30) as i64;
        i += 1;
        assert(acc == digits_value(digits.take(i - start)));
        assert(all_digits(digits.take(i - start))) by {
            assert forall|j: int| 0 <= j < i - start implies is_digit(
                #[trigger] digits.take(i - start)[j],
            ) by {
                if j < i - start - 1 {
                    assert(digits.take(i - start)[j] == digits.take(i - start - 1)[j]);
                }
            }
        }
        if acc > 0x8000_0000 {
            proof {
                lemma_digits_value_grows(digits, i - start);
                if all_digits(digits) {
                    assert(digits_value(digits) > 0x8000_0000);
                }
            }
            return None;
        }
    }
    proof {
        assert(digits.take(n - start) =~= digits);
    }
    if negative {
        Some((-acc) as i32)
    } else if acc > 0x7FFF_FFFF {
        None
    } else {
        Some(acc as i32)
    }
}

/// Writes a 32-bit integer as decimal text.
pub fn format_i32(v: i32) -> (text: String)
    ensures
        text@ == int_text(v as int),
{
    let mut text = String::new();
    let mut n: u32 = if v < 0 {
        push_char(&mut text, '-');
        (-(v as i64)) as u32
    } else {
        v as u32
    };
    let ghost sign = text@;
    let ghost magnitude = n as nat;
    // The digits come out last first, so they are collected and then turned.
    let mut rev: Vec<u8> = Vec::new();
    proof {
        assert(pow10(0) == 1);
        assert(n as nat * pow10(0) == n as nat) by (nonlinear_arith)
            requires
                pow10(0) == 1,
        ;
        assert(digits_of(n as nat) + Seq::<char>::empty() =~= digits_of(n as nat));
    }
    while n >= 10
        invariant
            rev@.len() <= 10,
            forall|j: int| 0 <= j < rev@.len() ==> #[trigger] rev@[j] < 10,
            digits_of(magnitude) == digits_of(n as nat) + Seq::new(
                rev@.len(),
                |j: int| digit_char(rev@[rev@.len() - 1 - j] as nat),
            ),
            n as nat * pow10(rev@.len()) <= magnitude,
            magnitude < 0x1_0000_0000,
        decreases n,
    {
        let ghost before = rev@;
        let ghost tail = Seq::new(before.len(), |j: int| digit_char(before[before.len() - 1 - j] as nat));
        proof {
            lemma_pow10_grows(rev@.len());
            assert((n / 10) as nat * pow10(rev@.len() + 1) <= n as nat * pow10(rev@.len()))
                by (nonlinear_arith)
                requires
                    pow10(rev@.len() + 1) == 10 * pow10(rev@.len()),
                    (n / 10) * 10 <= n,
                    n >= 0,
            ;
            if rev@.len() >= 10 {
                lemma_pow10_ten();
                lemma_pow10_monotone(10, rev@.len());
                assert(n as nat * pow10(rev@.len()) >= 10 * pow10(rev@.len())) by (nonlinear_arith)
                    requires
                        n >= 10,
                        pow10(rev@.len()) >= 0,
                ;
            }
        }
        rev.push((n % 10) as u8);
        proof {
            let now = Seq::new(rev@.len(), |j: int| digit_char(rev@[rev@.len() - 1 - j] as nat));
            assert(now =~= seq![digit_char((n % 10) as nat)] + tail);
            assert(digits_of(n as nat) == digits_of((n / 10) as nat).push(
                digit_char((n % 10) as nat),
            ));
            assert(digits_of((n / 10) as nat).push(digit_char((n % 10) as nat)) + tail
                =~= digits_of((n / 10) as nat) + now);
        }
        n = n / 10;
    }
    push_char(&mut text, (0x30u8 + n as u8) as char);
    let ghost front = text@;
    let mut k: usize = rev.len();
    while k > 0
        invariant
            k <= rev@.len(),
            forall|j: int| 0 <= j < rev@.len() ==> #[trigger] rev@[j] < 10,
            text@ == front + Seq::new(
                (rev@.len() - k) as nat,
                |j: int| digit_char(rev@[rev@.len() - 1 - j] as nat),
            ),
        decreases k,
    {
        k -= 1;
        push_char(&mut text, (0x30u8 + rev[k]) as char);
        assert(text@ =~= front + Seq::new(
            (rev@.len() - k) as nat,
            |j: int| digit_char(rev@[rev@.len() - 1 - j] as nat),
        ));
    }
    assert(text@ =~= sign + digits_of(magnitude));
    assert(Seq::<char>::empty() + digits_of(magnitude) =~= digits_of(magnitude));
    text
}

/// 10 to the power `k`.
pub open spec fn pow10(k: nat) -> nat
    decreases k,
{
    if k == 0 {
        1
    } else {
        10 * pow10((k - 1) as nat)
    }
}

proof fn lemma_pow10_grows(k: nat)
    ensures
        pow10(k + 1) == 10 * pow10(k),
        pow10(k) >= 1,
    decreases k,
{
    if k > 0 {
        lemma_pow10_grows((k - 1) as nat);
    }
}

proof fn lemma_pow10_monotone(a: nat, b: nat)
    requires
        a <= b,
    ensures
        pow10(a) <= pow10(b),
    decreases b - a,
{
    if a < b {
        lemma_pow10_monotone(a, (b - 1) as nat);
        lemma_pow10_grows((b - 1) as nat);
    }
}

proof fn lemma_pow10_ten()
    ensures
        pow10(10) == 10_000_000_000,
{
    reveal_with_fuel(pow10, 11);
}

} // verus!
