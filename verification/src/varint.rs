//! The variable-length integer that heads a payload.
//!
//! A number is written in base 128, least significant digit first, one digit
//! per byte. The high bit of a byte says that another byte follows.

use crate::error::Error;
use vstd::prelude::*;

verus! {

/// The bytes that encode `n`: its base-128 digits, lowest first, each but the
/// last with the high bit set.
pub open spec fn varint_bytes(n: nat) -> Seq<u8>
    decreases n,
{
    if n < 128 {
        seq![n as u8]
    } else {
        seq![(n % 128 + 128) as u8] + varint_bytes(n / 128)
    }
}

/// The number of base-128 digits of `n` (one for zero).
pub open spec fn varint_len(n: nat) -> nat
    decreases n,
{
    if n < 128 {
        1
    } else {
        1 + varint_len(n / 128)
    }
}

/// The varint at the start of `bytes`: its value and the number of bytes it
/// takes, or `None` when the bytes end before a byte without the high bit.
pub open spec fn varint_parse(bytes: Seq<u8>) -> Option<(nat, nat)>
    decreases bytes.len(),
{
    if bytes.len() == 0 {
        None
    } else if bytes[0] < 128 {
        Some((bytes[0] as nat, 1))
    } else {
        match varint_parse(bytes.skip(1)) {
            None => None,
            Some((value, len)) => Some((((bytes[0] - 128) + 128 * value) as nat, len + 1)),
        }
    }
}

/// What [`decode_varint`] returns.
pub open spec fn spec_decode_varint(bytes: Seq<u8>) -> Result<(u64, usize), Error> {
    match varint_parse(bytes) {
        None => Err(Error::Io),
        Some((value, len)) => if value > u64::MAX {
            Err(Error::FormatCorruption)
        } else {
            Ok((value as u64, len as usize))
        },
    }
}

/// 128 to the power `i`.
pub open spec fn pow128(i: nat) -> nat
    decreases i,
{
    if i == 0 {
        1
    } else {
        128 * pow128((i - 1) as nat)
    }
}

/// Encodes `n` as a varint.
pub fn encode_varint(n: u64) -> (bytes: Vec<u8>)
    ensures
        bytes@ == varint_bytes(n as nat),
        bytes@.len() == varint_len(n as nat),
        1 <= bytes@.len() <= 10,
{
    let mut bytes: Vec<u8> = Vec::new();
    let mut rest: u64 = n;
    proof {
        assert(pow128(10) > u64::MAX) by {
            reveal_with_fuel(pow128, 11);
        }
        lemma_varint_bytes_len(n as nat);
        lemma_varint_len_bound(n as nat, 10);
    }
    while rest >= 128
        invariant
            varint_bytes(n as nat) == bytes@ + varint_bytes(rest as nat),
        decreases rest,
    {
        let digit: u8 = (rest % 128) as u8;
        proof {
            assert(bytes@.push((digit + 128) as u8) + varint_bytes((rest / 128) as nat) =~= bytes@
                + (seq![(digit + 128) as u8] + varint_bytes((rest / 128) as nat)));
        }
        bytes.push(digit + 128);
        rest = rest / 128;
    }
    proof {
        assert(bytes@.push(rest as u8) =~= bytes@ + seq![rest as u8]);
    }
    bytes.push(rest as u8);
    bytes
}

/// Reads the varint at the start of `bytes` and returns its value together
/// with the number of bytes it takes.
///
/// Fails with [`Error::Io`] when the bytes end before the varint does, and
/// with [`Error::FormatCorruption`] when the varint is complete but its value
/// does not fit into 64 bits.
pub fn decode_varint(bytes: &[u8]) -> (r: Result<(u64, usize), Error>)
    ensures
        r == spec_decode_varint(bytes@),
{
    let mut acc: u64 = 0;
    let mut scale: u64 = 1;
    let mut overflow: bool = false;
    let mut i: usize = 0;
    proof {
        assert(bytes@.skip(0) =~= bytes@);
        reveal_with_fuel(pow128, 11);
    }
    while i < bytes.len()
        invariant
            i <= bytes@.len(),
            i <= 9 ==> scale == pow128(i as nat),
            pow128(9) == 0x8000_0000_0000_0000,
            reading_agrees(varint_parse(bytes@), varint_parse(bytes@.skip(i as int)), acc, overflow, i as nat),
        decreases bytes@.len() - i,
    {
        let b: u8 = bytes[i];
        let digit: u8 = b % 128;
        let ghost tail = bytes@.skip(i as int);
        let ghost before = acc;
        let ghost had_overflow = overflow;
        let ghost p = pow128(i as nat);
        proof {
            assert(tail[0] == b);
            assert(tail.skip(1) =~= bytes@.skip(i + 1));
            lemma_pow128_positive(i as nat);
            assert(digit * p >= 0) by (nonlinear_arith)
                requires
                    digit >= 0,
                    p >= 0,
            ;
        }
        if !overflow && digit != 0 {
            if i > 9 {
                overflow = true;
                proof {
                    lemma_pow128_monotonic(10, i as nat);
                    assert(digit * p >= p) by (nonlinear_arith)
                        requires
                            digit >= 1,
                            p >= 0,
                    ;
                }
            } else {
                assert(digit as u128 * scale as u128 <= 127 * 0x8000_0000_0000_0000) by {
                    lemma_pow128_monotonic(i as nat, 9);
                    assert(digit * scale <= 127 * 0x8000_0000_0000_0000) by (nonlinear_arith)
                        requires
                            0 <= digit <= 127,
                            0 <= scale <= 0x8000_0000_0000_0000,
                    ;
                }
                let sum: u128 = acc as u128 + digit as u128 * scale as u128;
                if sum > u64::MAX as u128 {
                    overflow = true;
                } else {
                    acc = sum as u64;
                }
            }
        }
        proof {
            if digit == 0 {
                assert(digit * p == 0) by (nonlinear_arith)
                    requires
                        digit == 0,
                ;
            }
            assert(if overflow {
                had_overflow || before + digit * p > u64::MAX
            } else {
                !had_overflow && acc == before + digit * p
            });
        }
        if b < 128 {
            proof {
                assert(p * (b as nat) == digit * p) by (nonlinear_arith)
                    requires
                        b == digit,
                ;
            }
            if overflow {
                return Err(Error::FormatCorruption);
            }
            return Ok((acc, i + 1));
        }
        proof {
            match varint_parse(bytes@.skip(i + 1)) {
                None => {},
                Some((value, len)) => {
                    let q = pow128((i + 1) as nat);
                    assert(p * (((b - 128) + 128 * value) as nat) == digit * p + q * value) by (nonlinear_arith)
                        requires
                            digit == b - 128,
                            value >= 0,
                            q == 128 * p,
                    ;
                    assert(q * value >= 0) by (nonlinear_arith)
                        requires
                            q >= 0,
                            value >= 0,
                    ;
                },
            }
        }
        i = i + 1;
        if i <= 9 {
            proof {
                lemma_pow128_monotonic(i as nat, 9);
            }
            scale = scale * 128;
        }
    }
    Err(Error::Io)
}

/// Whether the state of the loop in [`decode_varint`] after `i` bytes agrees
/// with the varint as a whole: `rest` is the varint that starts at byte `i`,
/// and `acc` is what the bytes before it are worth, unless that is already
/// too much for 64 bits.
spec fn reading_agrees(
    whole: Option<(nat, nat)>,
    rest: Option<(nat, nat)>,
    acc: u64,
    overflow: bool,
    i: nat,
) -> bool {
    match rest {
        None => whole is None,
        Some((value, len)) => {
            &&& whole matches Some((whole_value, whole_len))
            &&& whole_len == len + i
            &&& if overflow {
                whole_value > u64::MAX
            } else {
                whole_value == acc + pow128(i) * value
            }
        },
    }
}

/// Powers of 128 are positive.
proof fn lemma_pow128_positive(i: nat)
    ensures
        pow128(i) >= 1,
    decreases i,
{
    if i > 0 {
        lemma_pow128_positive((i - 1) as nat);
    }
}

/// Powers of 128 grow with the exponent.
proof fn lemma_pow128_monotonic(i: nat, j: nat)
    requires
        i <= j,
    ensures
        pow128(i) <= pow128(j),
    decreases j,
{
    if i < j {
        lemma_pow128_monotonic(i, (j - 1) as nat);
        lemma_pow128_positive((j - 1) as nat);
    }
}

/// The encoding of `n` has as many bytes as `n` has base-128 digits.
pub proof fn lemma_varint_bytes_len(n: nat)
    ensures
        varint_bytes(n).len() == varint_len(n),
    decreases n,
{
    if n >= 128 {
        lemma_varint_bytes_len(n / 128);
    }
}

/// A number below 128^k has at most `k` digits.
pub proof fn lemma_varint_len_bound(n: nat, k: nat)
    requires
        k >= 1,
        n < pow128(k),
    ensures
        varint_len(n) <= k,
    decreases n,
{
    if n >= 128 {
        if k == 1 {
            reveal_with_fuel(pow128, 2);
        } else {
            lemma_varint_len_bound(n / 128, (k - 1) as nat);
        }
    }
}

/// Reading back what was written: the varint at the start of the encoding of
/// `n`, whatever bytes follow it, has the value `n` and ends where the
/// encoding ends.
pub proof fn lemma_varint_parse_bytes(n: nat, rest: Seq<u8>)
    ensures
        varint_parse(varint_bytes(n) + rest) == Some((n, varint_len(n))),
    decreases n,
{
    let bytes = varint_bytes(n) + rest;
    if n >= 128 {
        lemma_varint_parse_bytes(n / 128, rest);
        assert(bytes.skip(1) =~= varint_bytes(n / 128) + rest);
    }
}

/// Round trip: decoding the encoding of any 64-bit number, and so of any
/// number below 2^32, gives the number back, together with the length of the
/// encoding.
pub proof fn lemma_varint_round_trip(n: u64)
    ensures
        spec_decode_varint(varint_bytes(n as nat)) == Ok::<(u64, usize), Error>(
            (n, varint_len(n as nat) as usize),
        ),
        varint_bytes(n as nat).len() == varint_len(n as nat),
{
    lemma_varint_parse_bytes(n as nat, Seq::empty());
    assert(varint_bytes(n as nat) + Seq::<u8>::empty() =~= varint_bytes(n as nat));
    lemma_varint_bytes_len(n as nat);
    assert(pow128(10) > u64::MAX) by {
        reveal_with_fuel(pow128, 11);
    }
    lemma_varint_len_bound(n as nat, 10);
}

/// Minimality: no sequence of bytes that reads as the varint `n` is shorter
/// than the encoding of `n`.
pub proof fn lemma_varint_minimal(bytes: Seq<u8>, n: nat)
    requires
        varint_parse(bytes) matches Some((value, _)) && value == n,
    ensures
        varint_parse(bytes) matches Some((_, len)) && len >= varint_bytes(n).len(),
    decreases bytes.len(),
{
    lemma_varint_bytes_len(n);
    if bytes[0] >= 128 {
        let (value, _) = varint_parse(bytes.skip(1))->0;
        lemma_varint_minimal(bytes.skip(1), value);
        lemma_varint_bytes_len(value);
        assert(n / 128 == value);
    }
}

} // verus!
