//! Byte-level encoders shared by the ledger: lowercase hexadecimal rendering
//! of unsigned integers (used by the proof-of-work guess) and a sign/magnitude
//! encoding of signed timestamps (used by the canonical block serialization).

use vstd::prelude::*;

verus! {

/// The ASCII code of the lowercase hexadecimal digit for a value below 16.
pub open spec fn spec_hex_digit(v: u128) -> u8 {
    if v < 10 {
        (48 + v) as u8
    } else {
        (87 + v) as u8
    }
}

/// The ASCII bytes of `n` written in lowercase hexadecimal without leading
/// zeros; zero itself is written as the single digit `0`.
pub open spec fn spec_hex_digits(n: u128) -> Seq<u8>
    decreases n,
{
    if n < 16 {
        seq![spec_hex_digit(n)]
    } else {
        spec_hex_digits(n / 16).push(spec_hex_digit(n % 16))
    }
}

fn hex_digit(v: u8) -> (r: u8)
    requires
        v < 16,
    ensures
        r == spec_hex_digit(v as u128),
{
    if v < 10 {
        48 + v
    } else {
        87 + v
    }
}

/// Renders `n` as lowercase hexadecimal ASCII, matching `spec_hex_digits`.
pub fn hex_bytes(n: u128) -> (r: Vec<u8>)
    ensures
        r@ == spec_hex_digits(n),
{
    let mut low_first: Vec<u8> = Vec::new();
    let mut cur: u128 = n;
    loop
        invariant_except_break
            spec_hex_digits(n) =~= spec_hex_digits(cur) + low_first@.reverse(),
        ensures
            spec_hex_digits(n) =~= low_first@.reverse(),
        decreases cur,
    {
        let d: u8 = (cur % 16) as u8;
        let digit = hex_digit(d);
        let ghost prev_acc = low_first@;
        low_first.push(digit);
        let next = cur / 16;
        proof {
            assert(low_first@.reverse() =~= seq![digit] + prev_acc.reverse());
            if next == 0 {
                assert(spec_hex_digits(cur) =~= seq![spec_hex_digit(cur)]);
                assert(spec_hex_digits(n) =~= low_first@.reverse());
            } else {
                assert(spec_hex_digits(cur) =~= spec_hex_digits(next).push(
                    spec_hex_digit(cur % 16),
                ));
                assert(spec_hex_digits(n) =~= spec_hex_digits(next) + low_first@.reverse());
            }
        }
        if next == 0 {
            break;
        }
        cur = next;
    }
    let mut out: Vec<u8> = Vec::new();
    let count = low_first.len();
    for i in 0..count
        invariant
            count == low_first.len(),
            out@ =~= low_first@.reverse().take(i as int),
    {
        out.push(low_first[count - 1 - i]);
    }
    proof {
        assert(out@ =~= low_first@.reverse());
    }
    out
}

/// A canonical encoding of a signed 64-bit value: one sign byte (0 for
/// non-negative, 1 for negative) followed by the magnitude, little endian.
pub open spec fn spec_i64_bytes(t: i64) -> Seq<u8> {
    if t >= 0 {
        seq![0u8] + vstd::bytes::spec_u64_to_le_bytes(t as u64)
    } else {
        seq![1u8] + vstd::bytes::spec_u64_to_le_bytes((-(t as int)) as u64)
    }
}

/// Encodes a signed 64-bit value, matching `spec_i64_bytes`.
pub fn i64_bytes(t: i64) -> (r: Vec<u8>)
    ensures
        r@ == spec_i64_bytes(t),
{
    let mut out: Vec<u8> = Vec::new();
    let magnitude: u64;
    if t >= 0 {
        out.push(0u8);
        magnitude = t as u64;
    } else {
        out.push(1u8);
        magnitude = ((-(t + 1)) as u64) + 1;
        proof {
            assert(magnitude == (-(t as int)) as u64);
        }
    }
    let le = vstd::bytes::u64_to_le_bytes(magnitude);
    append_bytes(&mut out, le.as_slice());
    proof {
        assert(out@ =~= spec_i64_bytes(t));
    }
    out
}

/// Appends every byte of `src` to `out`, in order.
pub fn append_bytes(out: &mut Vec<u8>, src: &[u8])
    ensures
        final(out)@ == old(out)@ + src@,
{
    let n = src.len();
    for i in 0..n
        invariant
            n == src.len(),
            out@ =~= old(out)@ + src@.take(i as int),
    {
        out.push(src[i]);
    }
    proof {
        assert(out@ =~= old(out)@ + src@);
    }
}

} // verus!
