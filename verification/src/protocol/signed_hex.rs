//! Byte strings read as big-endian two's-complement integers, and their
//! signed hexadecimal text.

use vstd::prelude::*;

verus! {

/// 256 to the power `k`.
pub open spec fn pow256(k: nat) -> nat
    decreases k,
{
    if k == 0 {
        1
    } else {
        256 * pow256((k - 1) as nat)
    }
}

/// The natural number that the bytes spell, most significant byte first.
pub open spec fn be_value(bytes: Seq<u8>) -> nat
    decreases bytes.len(),
{
    if bytes.len() == 0 {
        0
    } else {
        be_value(bytes.drop_last()) * 256 + bytes.last() as nat
    }
}

/// Whether the bytes, read as a two's-complement integer, are negative: the
/// high bit of the first byte is set.
pub open spec fn is_negative(bytes: Seq<u8>) -> bool {
    bytes.len() > 0 && bytes[0] >= 0x80
}

/// The integer that the bytes spell in two's complement, most significant
/// byte first.
pub open spec fn signed_value(bytes: Seq<u8>) -> int {
    if is_negative(bytes) {
        be_value(bytes) - pow256(bytes.len())
    } else {
        be_value(bytes) as int
    }
}

/// The lowercase hexadecimal digit for `d < 16`.
pub open spec fn hex_char(d: nat) -> char {
    if d < 10 {
        (('0' as u8) + d) as u8 as char
    } else {
        (('a' as u8) + (d - 10)) as u8 as char
    }
}

/// The hexadecimal digits of `n` without a leading zero; none for zero.
pub open spec fn hex_digits(n: nat) -> Seq<char>
    decreases n,
{
    if n == 0 {
        seq![]
    } else {
        hex_digits(n / 16).push(hex_char(n % 16))
    }
}

/// The text of an integer in base 16: a `-` where it is negative, then the
/// digits of its magnitude without a leading zero, and `0` for zero.
pub open spec fn signed_hex(v: int) -> Seq<char> {
    if v < 0 {
        seq!['-'] + hex_digits((-v) as nat)
    } else if v == 0 {
        seq!['0']
    } else {
        hex_digits(v as nat)
    }
}

/// The lowercase hexadecimal digit for a value below 16.
pub fn hex_digit(d: u8) -> (c: char)
    requires
        d < 16,
    ensures
        c == hex_char(d as nat),
{
    if d < 10 {
        (0x30u8 + d) as char
    } else {
        (0x61u8 + (d - 10)) as char
    }
}

pub proof fn lemma_pow256_positive(k: nat)
    ensures
        pow256(k) > 0,
    decreases k,
{
    if k > 0 {
        lemma_pow256_positive((k - 1) as nat);
    }
}

/// Bytes spell a number below 256 to the power of their count.
pub proof fn lemma_be_value_bound(bytes: Seq<u8>)
    ensures
        be_value(bytes) < pow256(bytes.len()),
    decreases bytes.len(),
{
    if bytes.len() > 0 {
        lemma_be_value_bound(bytes.drop_last());
    }
}

/// The first byte counts for 256 to the power of the number of bytes after
/// it.
pub proof fn lemma_be_value_first(bytes: Seq<u8>)
    requires
        bytes.len() > 0,
    ensures
        be_value(bytes) == bytes[0] * pow256((bytes.len() - 1) as nat) + be_value(
            bytes.drop_first(),
        ),
    decreases bytes.len(),
{
    if bytes.len() == 1 {
        assert(bytes.drop_last() =~= Seq::<u8>::empty());
        assert(bytes.drop_first() =~= Seq::<u8>::empty());
        assert(be_value(Seq::<u8>::empty()) == 0);
        assert(pow256(0) == 1);
        assert(be_value(bytes) == bytes[0] as nat);
        assert(bytes[0] * pow256(0) == bytes[0]) by (nonlinear_arith)
            requires
                pow256(0) == 1,
        ;
    } else {
        let front = bytes.drop_last();
        let tail = bytes.drop_first();
        lemma_be_value_first(front);
        assert(front.drop_first() =~= tail.drop_last());
        let p = pow256((bytes.len() - 2) as nat);
        let first = bytes[0] as nat;
        let middle = be_value(tail.drop_last());
        assert(be_value(front) == first * p + middle);
        assert(be_value(bytes) == be_value(front) * 256 + bytes.last() as nat);
        assert(be_value(tail) == middle * 256 + bytes.last() as nat);
        assert(pow256((bytes.len() - 1) as nat) == 256 * p);
        assert((first * p + middle) * 256 == first * (256 * p) + middle * 256)
            by (nonlinear_arith);
        assert(be_value(bytes) == first * (256 * p) + be_value(tail));
    }
}

/// A number at least 16 has the digits of its sixteenth and one more.
pub proof fn lemma_hex_digits_step(n: nat, d: nat)
    requires
        n > 0,
        d < 16,
    ensures
        hex_digits(n * 16 + d) == hex_digits(n).push(hex_char(d)),
{
    let m = n * 16 + d;
    assert(m / 16 == n && m % 16 == d);
}

/// What one more byte adds to the digits of a number.
pub proof fn lemma_hex_digits_byte(n: nat, b: u8)
    ensures
        n > 0 ==> hex_digits(n * 256 + b as nat) == hex_digits(n).push(hex_char(b as nat / 16)).push(
            hex_char(b as nat % 16),
        ),
        n == 0 && b >= 16 ==> hex_digits(n * 256 + b as nat) == seq![
            hex_char(b as nat / 16),
            hex_char(b as nat % 16),
        ],
        n == 0 && 0 < b < 16 ==> hex_digits(n * 256 + b as nat) == seq![hex_char(b as nat)],
        n == 0 && b == 0 ==> hex_digits(n * 256 + b as nat) == Seq::<char>::empty(),
{
    let hi = b as nat / 16;
    let lo = b as nat % 16;
    if n > 0 {
        assert(n * 256 + b == (n * 16 + hi) * 16 + lo);
        lemma_hex_digits_step(n, hi);
        lemma_hex_digits_step(n * 16 + hi, lo);
    } else if b >= 16 {
        assert(hex_digits(0) =~= Seq::<char>::empty());
        assert(hi / 16 == 0 && hi % 16 == hi);
        assert(hex_digits(hi) =~= seq![hex_char(hi)]);
        lemma_hex_digits_step(hi, lo);
        assert(hex_digits(b as nat) =~= seq![hex_char(hi), hex_char(lo)]);
    } else if b > 0 {
        assert(hex_digits(0) =~= Seq::<char>::empty());
        assert(b as nat / 16 == 0 && b as nat % 16 == b as nat);
        assert(hex_digits(b as nat) =~= seq![hex_char(b as nat)]);
    }
}

/// The digits of a positive number are there, and the first of them is not
/// a zero.
pub proof fn lemma_hex_digits_leading(n: nat)
    requires
        n > 0,
    ensures
        hex_digits(n).len() > 0,
        hex_digits(n)[0] != '0',
        hex_digits(n)[0] != '-',
    decreases n,
{
    if n / 16 > 0 {
        lemma_hex_digits_leading(n / 16);
    } else {
        assert(hex_digits(0) =~= Seq::<char>::empty());
        assert(hex_digits(n) =~= seq![hex_char(n % 16)]);
        assert(n % 16 == n);
    }
}

/// The text of a digest read as a signed integer starts with `-` exactly
/// where the high bit of its first byte is set, and its magnitude has no
/// leading zero (the text of zero is the single digit `0`).
pub proof fn lemma_signed_hex_shape(bytes: Seq<u8>)
    ensures
        signed_hex(signed_value(bytes)).len() > 0,
        (signed_hex(signed_value(bytes))[0] == '-') == is_negative(bytes),
        is_negative(bytes) ==> signed_hex(signed_value(bytes)).len() > 1 && signed_hex(
            signed_value(bytes),
        )[1] != '0',
        !is_negative(bytes) && signed_value(bytes) != 0 ==> signed_hex(signed_value(bytes))[0]
            != '0',
        signed_value(bytes) == 0 ==> signed_hex(signed_value(bytes)) == seq!['0'],
{
    lemma_be_value_bound(bytes);
    let v = signed_value(bytes);
    if is_negative(bytes) {
        assert(v < 0);
        lemma_hex_digits_leading((-v) as nat);
    } else if v != 0 {
        lemma_hex_digits_leading(v as nat);
    }
}

} // verus!
