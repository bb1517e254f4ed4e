//! The primitive values of the wire format, read from and written to
//! bytes: single bytes, big-endian 16-bit integers and variable-length
//! integers.

use super::error::Error;
use byteorder::{BigEndian, ByteOrder};
use vstd::prelude::*;

verus! {

/// The signed 16-bit integer that two bytes spell in big-endian order.
pub open spec fn be_i16(hi: u8, lo: u8) -> i16 {
    if hi >= 128 {
        (hi * 256 + lo - 65536) as i16
    } else {
        (hi * 256 + lo) as i16
    }
}

/// The two bytes that spell a signed 16-bit integer in big-endian order.
pub open spec fn i16_wire(n: i16) -> Seq<u8> {
    let u = if n < 0 {
        n + 65536
    } else {
        n as int
    };
    seq![(u / 256) as u8, (u % 256) as u8]
}

/// `BigEndian::read_i16` of `byteorder`: the first two bytes of `buf`, read
/// as a signed integer with the high byte first. It panics on fewer than two
/// bytes.
#[verifier::external_body]
fn be_read_i16(buf: &[u8]) -> (n: i16)
    requires
        buf@.len() >= 2,
    ensures
        n == be_i16(buf@[0], buf@[1]),
{
    BigEndian::read_i16(buf)
}

/// `BigEndian::write_i16` of `byteorder`, on a buffer of two bytes: they
/// hold `n` with the high byte first.
#[verifier::external_body]
fn be_write_i16(n: i16) -> (buf: [u8; 2])
    ensures
        buf@ == i16_wire(n),
{
    let mut buf = [0u8; 2];
    BigEndian::write_i16(&mut buf, n);
    buf
}

/// A byte read from the front of `bytes`.
pub open spec fn parse_u8(bytes: Seq<u8>) -> Result<(u8, usize), Error> {
    if bytes.len() < 1 {
        Err(Error::UnexpectedEof)
    } else {
        Ok((bytes[0], 1usize))
    }
}

/// A big-endian signed 16-bit integer read from the front of `bytes`.
pub open spec fn parse_i16(bytes: Seq<u8>) -> Result<(i16, usize), Error> {
    if bytes.len() < 2 {
        Err(Error::UnexpectedEof)
    } else {
        Ok((be_i16(bytes[0], bytes[1]), 2usize))
    }
}

/// 128 to the power `k`.
pub open spec fn pow128(k: nat) -> nat
    decreases k,
{
    if k == 0 {
        1
    } else {
        128 * pow128((k - 1) as nat)
    }
}

/// Where the variable-length integer at the front of `bytes` ends: the index
/// of the first byte, from `i` on and among the first five, whose high bit
/// is clear.
pub open spec fn var_int_end(bytes: Seq<u8>, i: nat) -> Option<nat>
    decreases 5 - i,
{
    if i >= 5 || i >= bytes.len() {
        None
    } else if bytes[i as int] < 128 {
        Some(i)
    } else {
        var_int_end(bytes, i + 1)
    }
}

/// The number that the low seven bits of the first `count` bytes spell,
/// least significant group first.
pub open spec fn var_int_sum(bytes: Seq<u8>, count: nat) -> nat
    decreases count,
{
    if count == 0 {
        0
    } else {
        var_int_sum(bytes, (count - 1) as nat) + (bytes[count - 1] % 128) as nat * pow128(
            (count - 1) as nat,
        )
    }
}

/// A variable-length integer read from the front of `bytes`: seven bits to
/// a byte, least significant group first, the high bit of a byte saying that
/// another follows, five bytes at most. What the groups spell beyond 32 bits
/// is dropped.
pub open spec fn parse_var_int(bytes: Seq<u8>) -> Result<(i32, usize), Error> {
    match var_int_end(bytes, 0) {
        Some(last) => Ok(((var_int_sum(bytes, last + 1) as u32) as i32, (last + 1) as usize)),
        None => if bytes.len() >= 5 {
            Err(Error::VarIntTooBig)
        } else {
            Err(Error::UnexpectedEof)
        },
    }
}

/// The bytes of a number as a variable-length integer.
pub open spec fn var_int_groups(u: nat) -> Seq<u8>
    decreases u,
{
    if u < 128 {
        seq![u as u8]
    } else {
        seq![(u % 128 + 128) as u8] + var_int_groups(u / 128)
    }
}

/// The bytes of a signed 32-bit integer as a variable-length integer: those
/// of the unsigned integer with the same bits.
pub open spec fn var_int_wire(v: i32) -> Seq<u8> {
    var_int_groups((v as u32) as nat)
}

/// Reads one byte at `pos`.
pub fn read_u8(buf: &[u8], pos: usize) -> (r: Result<(u8, usize), Error>)
    requires
        pos <= buf@.len(),
    ensures
        r == parse_u8(buf@.skip(pos as int)),
{
    if pos < buf.len() {
        Ok((buf[pos], 1))
    } else {
        Err(Error::UnexpectedEof)
    }
}

/// Reads a big-endian signed 16-bit integer at `pos`.
pub fn read_i16(buf: &[u8], pos: usize) -> (r: Result<(i16, usize), Error>)
    requires
        pos <= buf@.len(),
    ensures
        r == parse_i16(buf@.skip(pos as int)),
{
    if buf.len() - pos < 2 {
        return Err(Error::UnexpectedEof);
    }
    let two = vstd::slice::slice_subrange(buf, pos, pos + 2);
    Ok((be_read_i16(two), 2))
}

/// Appends a big-endian signed 16-bit integer.
pub fn write_i16(out: &mut Vec<u8>, n: i16)
    ensures
        final(out)@ == old(out)@ + i16_wire(n),
{
    let two = be_write_i16(n);
    out.push(two[0]);
    out.push(two[1]);
    assert(out@ =~= old(out)@ + i16_wire(n));
}

proof fn lemma_var_int_sum_bound(bytes: Seq<u8>, count: nat)
    ensures
        var_int_sum(bytes, count) < pow128(count),
    decreases count,
{
    if count > 0 {
        lemma_var_int_sum_bound(bytes, (count - 1) as nat);
        let p = pow128((count - 1) as nat);
        let d = (bytes[count - 1] % 128) as nat;
        assert(d * p <= 127 * p) by (nonlinear_arith)
            requires
                d <= 127,
        ;
    }
}

proof fn lemma_pow128_values()
    ensures
        pow128(0) == 1,
        pow128(1) == 128,
        pow128(2) == 16384,
        pow128(3) == 2097152,
        pow128(4) == 268435456,
        pow128(5) == 34359738368,
{
    reveal_with_fuel(pow128, 6);
}

/// A variable-length integer ends among the first five bytes, and among
/// those that are there.
pub proof fn lemma_var_int_end_bound(bytes: Seq<u8>, i: nat)
    ensures
        var_int_end(bytes, i) matches Some(last) ==> i <= last < 5 && last < bytes.len(),
    decreases 5 - i,
{
    if i < 5 && i < bytes.len() && bytes[i as int] >= 128 {
        lemma_var_int_end_bound(bytes, i + 1);
    }
}

/// Reads a variable-length integer at `pos`.
pub fn read_var_int(buf: &[u8], pos: usize) -> (r: Result<(i32, usize), Error>)
    requires
        pos <= buf@.len(),
    ensures
        r == parse_var_int(buf@.skip(pos as int)),
        r matches Ok((_, n)) ==> 1 <= n <= 5 && pos + n <= buf@.len(),
{
    let ghost bytes = buf@.skip(pos as int);
    let avail: usize = buf.len() - pos;
    let mut val: u64 = 0;
    let mut mult: u64 = 1;
    let mut i: usize = 0;
    proof {
        lemma_pow128_values();
    }
    while i < 5 && i < avail
        invariant
            i <= 5,
            i <= avail,
            avail == bytes.len(),
            pos + avail == buf@.len(),
            buf@.len() <= usize::MAX,
            bytes == buf@.skip(pos as int),
            val == var_int_sum(bytes, i as nat),
            mult == pow128(i as nat),
            var_int_end(bytes, 0) == var_int_end(bytes, i as nat),
        decreases 5 - i,
    {
        let b: u8 = buf[pos + i];
        assert(b == bytes[i as int]);
        proof {
            lemma_pow128_values();
            lemma_var_int_sum_bound(bytes, i as nat);
            assert(((b % 128) as nat) * pow128(i as nat) <= 127 * pow128(i as nat))
                by (nonlinear_arith)
                requires
                    b % 128 <= 127,
            ;
        }
        val = val + (b % 128) as u64 * mult;
        i += 1;
        if b < 128 {
            return Ok(((#[verifier::truncate] (val as u32)) as i32, i));
        }
        mult = mult * 128;
    }
    if avail >= 5 {
        Err(Error::VarIntTooBig)
    } else {
        Err(Error::UnexpectedEof)
    }
}

/// Appends a variable-length integer.
pub fn write_var_int(out: &mut Vec<u8>, v: i32)
    ensures
        final(out)@ == old(out)@ + var_int_wire(v),
{
    let mut val: u32 = v as u32;
    assert(old(out)@ + var_int_groups(val as nat) =~= old(out)@ + var_int_wire(v));
    while val >= 128
        invariant
            out@ + var_int_groups(val as nat) == old(out)@ + var_int_wire(v),
        decreases val,
    {
        let ghost before = out@;
        out.push((val % 128 + 128) as u8);
        assert(out@ + var_int_groups((val / 128) as nat) =~= before + var_int_groups(val as nat));
        val = val / 128;
    }
    let ghost before = out@;
    out.push(val as u8);
    assert(out@ =~= before + var_int_groups(val as nat));
}

/// A big-endian 16-bit integer reads back as it was written, whatever
/// follows it.
pub proof fn lemma_i16_round_trip(n: i16, rest: Seq<u8>)
    ensures
        i16_wire(n).len() == 2,
        parse_i16(i16_wire(n) + rest) == Ok::<(i16, usize), Error>((n, 2usize)),
{
}

/// A number below 128 to the power `k` takes `k` groups at most.
proof fn lemma_var_int_groups_len(u: nat, k: nat)
    requires
        k >= 1,
        u < pow128(k),
    ensures
        1 <= var_int_groups(u).len() <= k,
    decreases u,
{
    if u >= 128 {
        assert(pow128(1) == 128) by {
            reveal_with_fuel(pow128, 2);
        }
        assert(k >= 2);
        assert(pow128(k) == 128 * pow128((k - 1) as nat));
        lemma_var_int_groups_len(u / 128, (k - 1) as nat);
    }
}

/// The groups of a number, found at `i` in `bytes`, end where they should
/// and add the number, shifted by the groups before it, to what those spell.
proof fn lemma_var_int_groups_parse(bytes: Seq<u8>, i: nat, u: nat)
    requires
        i + var_int_groups(u).len() <= 5,
        i + var_int_groups(u).len() <= bytes.len(),
        bytes.subrange(i as int, (i + var_int_groups(u).len()) as int) == var_int_groups(u),
    ensures
        var_int_end(bytes, i) == Some((i + var_int_groups(u).len() - 1) as nat),
        var_int_sum(bytes, i + var_int_groups(u).len()) == var_int_sum(bytes, i) + u * pow128(i),
    decreases u,
{
    let groups = var_int_groups(u);
    let p = pow128(i);
    assert(bytes[i as int] == groups[0]);
    if u < 128 {
        assert(var_int_sum(bytes, i + 1) == var_int_sum(bytes, i) + (bytes[i as int] % 128) as nat
            * p);
    } else {
        let tail = var_int_groups(u / 128);
        assert(groups.len() == 1 + tail.len());
        assert(bytes.subrange((i + 1) as int, (i + 1 + tail.len()) as int) =~= tail) by {
            assert forall|j: int| 0 <= j < tail.len() implies bytes[i + 1 + j] == tail[j] by {
                assert(groups[1 + j] == tail[j]);
                assert(bytes.subrange(i as int, (i + groups.len()) as int)[1 + j] == bytes[i + 1 + j]);
            }
        }
        lemma_var_int_groups_parse(bytes, i + 1, u / 128);
        assert(var_int_sum(bytes, i + 1) == var_int_sum(bytes, i) + (bytes[i as int] % 128) as nat
            * p);
        assert(pow128(i + 1) == 128 * p);
        let low = (u % 128) as nat;
        let high = u / 128;
        assert(low * p + high * (128 * p) == u * p) by (nonlinear_arith)
            requires
                u == high * 128 + low,
        ;
    }
}

/// A variable-length integer reads back as it was written, whatever follows
/// it.
pub proof fn lemma_var_int_round_trip(v: i32, rest: Seq<u8>)
    ensures
        1 <= var_int_wire(v).len() <= 5,
        parse_var_int(var_int_wire(v) + rest) == Ok::<(i32, usize), Error>(
            (v, var_int_wire(v).len() as usize),
        ),
{
    let u = (v as u32) as nat;
    let wire = var_int_wire(v);
    let bytes = wire + rest;
    lemma_pow128_values();
    lemma_var_int_groups_len(u, 5);
    assert(bytes.subrange(0, wire.len() as int) =~= wire);
    lemma_var_int_groups_parse(bytes, 0, u);
    assert(u * pow128(0) == u) by (nonlinear_arith)
        requires
            pow128(0) == 1,
    ;
    assert(var_int_sum(bytes, wire.len()) == u);
    assert((v as u32) as i32 == v) by (bit_vector);
}

} // verus!
