//! The base64 VLQ primitive codec.
//!
//! A signed integer is folded to a non-negative one (sign in bit 0), then
//! written as 5-bit groups, least significant first, each group carried by
//! one character of the base64 alphabet with bit 5 of the raw value set on
//! every group but the last.

use vstd::prelude::*;
use vstd::arithmetic::power2::{pow2, lemma_pow2_adds, lemma2_to64, lemma2_to64_rest};
use vstd::bits::{lemma_u64_pow2_no_overflow, lemma_u64_shl_is_mul};

use crate::error::Error;

verus! {

/// `,` ends a segment; `;` additionally starts a new generated line.
pub open spec fn is_sep(c: u8) -> bool {
    c == 44 || c == 59
}

/// The base64 alphabet: `A-Z a-z 0-9 + /`, for digits `0` to `63`.
pub open spec fn b64_byte_of(d: int) -> u8 {
    if 0 <= d < 26 {
        (d + 65) as u8  // 'A'..='Z'
    } else if 26 <= d < 52 {
        (d + 71) as u8  // 'a'..='z'
    } else if 52 <= d < 62 {
        (d - 4) as u8  // '0'..='9'
    } else if d == 62 {
        43u8  // '+'
    } else {
        47u8  // '/'
    }
}

/// The digit a byte stands for, `-1` when the byte is not in the alphabet.
pub open spec fn b64_value_of(c: u8) -> int {
    if 65 <= c <= 90 {
        c - 65
    } else if 97 <= c <= 122 {
        c - 71
    } else if 48 <= c <= 57 {
        c + 4
    } else if c == 43 {
        62
    } else if c == 47 {
        63
    } else {
        -1
    }
}

/// Sign folding: the magnitude shifted up one bit, the sign in bit 0.
pub open spec fn vlq_fold(num: int) -> int {
    if num < 0 {
        (-num) * 2 + 1
    } else {
        num * 2
    }
}

/// The bytes of a folded value, least significant 5-bit group first; bit 5
/// of the raw digit marks a continuation.
pub open spec fn vlq_digits(f: nat) -> Seq<u8>
    decreases f,
{
    if f < 32 {
        seq![b64_byte_of(f as int)]
    } else {
        seq![b64_byte_of(f as int % 32 + 32)] + vlq_digits(f / 32)
    }
}

/// The full VLQ encoding of a signed value.
pub open spec fn vlq_encode_bytes(num: int) -> Seq<u8> {
    vlq_digits(vlq_fold(num) as nat)
}

/// A 64-bit pattern read as a two's-complement signed value.
pub open spec fn u64_as_signed(x: u64) -> int {
    if x < 0x8000_0000_0000_0000 {
        x as int
    } else {
        x - 0x1_0000_0000_0000_0000
    }
}

/// An integer reduced to 64 bits.
pub open spec fn wrap64(x: int) -> u64 {
    (x % 0x1_0000_0000_0000_0000) as u64
}

/// Un-folding of an accumulated group run: an arithmetic shift right by one
/// bit of the two's-complement value, negated when bit 0 (the sign) is set.
pub open spec fn vlq_unfold(cur: u64) -> i64 {
    let half = u64_as_signed(cur) / 2;
    if cur % 2 == 1 {
        (-half) as i64
    } else {
        half as i64
    }
}

/// One segment of a mapping: VLQ values accumulated until a separator or the
/// end of the input. Mirrors the decoder exactly, including the truncation of
/// groups shifted past bit 63 and the failure once a shift passes 60.
///
/// Returns the decoded values and the index of the separator (or of the end).
pub open spec fn parse_segment(
    s: Seq<u8>,
    i: int,
    cur: u64,
    shift: nat,
    vals: Seq<i64>,
) -> Result<(Seq<i64>, int), Error>
    decreases s.len() - i,
{
    if i < 0 || i >= s.len() || is_sep(s[i]) {
        if cur != 0 || shift != 0 {
            Err(Error::VlqLeftover)
        } else if vals.len() == 0 {
            Err(Error::VlqNoValues)
        } else {
            Ok((vals, i))
        }
    } else {
        let enc = b64_value_of(s[i]);
        let val = if enc == -1 {
            31int
        } else {
            enc % 32
        };
        let cont = enc == -1 || enc >= 32;
        if shift > 60 {
            Err(Error::VlqOverflow)
        } else {
            let cur2 = wrap64(cur + val * pow2(shift));
            if cont {
                parse_segment(s, i + 1, cur2, (shift + 5) as nat, vals)
            } else {
                parse_segment(s, i + 1, 0u64, 0nat, vals.push(vlq_unfold(cur2)))
            }
        }
    }
}

/// The byte for a base64 digit.
pub fn b64_byte(d: u8) -> (r: u8)
    requires
        d < 64,
    ensures
        r == b64_byte_of(d as int),
{
    if d < 26 {
        d + 65
    } else if d < 52 {
        d + 71
    } else if d < 62 {
        d - 4
    } else if d == 62 {
        43
    } else {
        47
    }
}

/// The digit of a byte, `-1` outside the alphabet.
pub fn b64_value(c: u8) -> (r: i8)
    ensures
        r as int == b64_value_of(c),
{
    if 65 <= c && c <= 90 {
        (c - 65) as i8
    } else if 97 <= c && c <= 122 {
        (c - 71) as i8
    } else if 48 <= c && c <= 57 {
        (c + 4) as i8
    } else if c == 43 {
        62
    } else if c == 47 {
        63
    } else {
        -1
    }
}

/// Append the VLQ encoding of `num`, a delta of two `u32` values.
pub fn vlq_encode(out: &mut Vec<u8>, num: i64)
    requires
        -0xffff_ffff <= num <= 0xffff_ffff,
    ensures
        final(out)@ =~= old(out)@ + vlq_encode_bytes(num as int),
{
    let folded: u64 = if num < 0 {
        ((-num) as u64) * 2 + 1
    } else {
        (num as u64) * 2
    };
    let ghost all_digits = vlq_digits(folded as nat);
    let mut n: u64 = folded;
    let ghost mut emitted: Seq<u8> = Seq::empty();
    while n >= 32
        invariant
            out@ =~= old(out)@ + emitted,
            emitted + vlq_digits(n as nat) =~= all_digits,
        decreases n,
    {
        let d = (n % 32) as u8;
        out.push(b64_byte(d + 32));
        proof {
            emitted = emitted.push(b64_byte_of(d + 32));
            assert(emitted + vlq_digits((n / 32) as nat) =~= all_digits);
        }
        n = n / 32;
    }
    out.push(b64_byte(n as u8));
    proof {
        assert(out@ =~= old(out)@ + all_digits);
        assert(all_digits == vlq_encode_bytes(num as int));
    }
}

/// Every VLQ encoding takes at most `k` bytes when the folded value is below
/// `32^k`.
pub proof fn lemma_vlq_digits_len(f: nat, k: nat)
    requires
        1 <= k,
        f < pow2(5 * k),
    ensures
        1 <= vlq_digits(f).len() <= k,
    decreases k,
{
    if f < 32 {
    } else {
        assert(pow2(5) == 32) by {
            lemma2_to64();
        }
        assert(pow2(5 * k) == 32 * pow2(5 * (k - 1) as nat)) by {
            lemma_pow2_adds(5, 5 * (k - 1) as nat);
        }
        assert(f / 32 < pow2(5 * (k - 1) as nat));
        assert(k >= 2) by {
            if k == 1 {
                assert(pow2(5) == 32) by {
                    lemma2_to64();
                }
            }
        }
        lemma_vlq_digits_len(f / 32, (k - 1) as nat);
    }
}

/// An encoded digit decodes back to itself and is never a separator.
pub proof fn lemma_b64_byte_value(d: int)
    requires
        0 <= d < 64,
    ensures
        b64_value_of(b64_byte_of(d)) == d,
        !is_sep(b64_byte_of(d)),
{
}

/// Read one segment's VLQ values, from `start` up to a separator or the end
/// of the input. Returns the values and the index the scan stopped at.
pub fn parse_vlq_segment(s: &[u8], start: usize) -> (r: Result<(Vec<i64>, usize), Error>)
    ensures
        match parse_segment(s@, start as int, 0u64, 0nat, Seq::<i64>::empty()) {
            Ok(p) => r matches Ok(q) && q.0@ == p.0 && q.1 == p.1,
            Err(e) => r matches Err(e2) && e2 == e,
        },
{
    let n = s.len();
    let mut i = start;
    let mut cur: u64 = 0;
    let mut shift: u32 = 0;
    let mut vals: Vec<i64> = Vec::new();
    while i < n && s[i] != 44 && s[i] != 59
        invariant
            n == s@.len(),
            start <= i,
            i <= n || i == start,
            shift <= 65,
            parse_segment(s@, start as int, 0u64, 0nat, Seq::<i64>::empty()) == parse_segment(
                s@,
                i as int,
                cur,
                shift as nat,
                vals@,
            ),
        decreases n - i,
    {
        let c = s[i];
        let enc = b64_value(c);
        let (val, cont): (u8, bool) = if enc < 0 {
            (31, true)
        } else {
            ((enc as u8) % 32, enc >= 32)
        };
        if shift > 60 {
            return Err(Error::VlqOverflow);
        }
        let pow: u64 = 1u64 << shift;
        proof {
            lemma_u64_pow2_no_overflow(shift as nat);
            lemma_u64_shl_is_mul(1u64, shift as u64);
        }
        let added: u64 = (val as u64).wrapping_mul(pow);
        let cur2: u64 = cur.wrapping_add(added);
        proof {
            let m = 0x1_0000_0000_0000_0000int;
            let v = (if b64_value_of(c) == -1 {
                31int
            } else {
                b64_value_of(c) % 32
            });
            assert(val == v);
            vstd::arithmetic::div_mod::lemma_add_mod_noop(
                cur as int,
                v * pow2(shift as nat),
                m,
            );
            vstd::arithmetic::div_mod::lemma_small_mod(cur as nat, m as nat);
            assert(added == (v * pow2(shift as nat)) % m);
            assert(cur + added < 2 * m);
            if cur + added < m {
                vstd::arithmetic::div_mod::lemma_small_mod((cur + added) as nat, m as nat);
            } else {
                assert((cur + added) % m == cur + added - m) by {
                    vstd::arithmetic::div_mod::lemma_mod_sub_multiples_vanish(
                        (cur + added) as int,
                        m,
                    );
                    vstd::arithmetic::div_mod::lemma_small_mod(
                        (cur + added - m) as nat,
                        m as nat,
                    );
                }
            }
            assert(cur2 == wrap64(cur + v * pow2(shift as nat)));
        }
        if cont {
            cur = cur2;
            shift = shift + 5;
        } else {
            let sign = cur2 % 2 == 1;
            let half: i64 = if cur2 < 0x8000_0000_0000_0000 {
                (cur2 / 2) as i64
            } else {
                -((((0xffff_ffff_ffff_ffffu64 - cur2) / 2) + 1) as i64)
            };
            let value: i64 = if sign {
                -half
            } else {
                half
            };
            proof {
                assert(half == u64_as_signed(cur2) / 2);
                assert(value == vlq_unfold(cur2));
            }
            vals.push(value);
            cur = 0;
            shift = 0;
        }
        i = i + 1;
    }
    if cur != 0 || shift != 0 {
        return Err(Error::VlqLeftover);
    }
    if vals.len() == 0 {
        return Err(Error::VlqNoValues);
    }
    Ok((vals, i))
}

/// Scanning the digits of a folded value `f` laid out at position `i`
/// accumulates exactly `f`, scaled into the bits above `shift0`, and then
/// resumes with a fresh accumulator one past the digits.
pub proof fn lemma_parse_encoded(s: Seq<u8>, i: int, cur0: u64, shift0: nat, acc: Seq<i64>, f: nat)
    requires
        0 <= i,
        i + vlq_digits(f).len() <= s.len(),
        forall|j: int|
            0 <= j < vlq_digits(f).len() ==> s[i + j] == vlq_digits(f)[j],
        shift0 % 5 == 0,
        shift0 + 5 * vlq_digits(f).len() <= 65,
        cur0 + f * pow2(shift0) < pow2(63),
    ensures
        parse_segment(s, i, cur0, shift0, acc) == parse_segment(
            s,
            i + vlq_digits(f).len(),
            0u64,
            0nat,
            acc.push(vlq_unfold((cur0 + f * pow2(shift0)) as u64)),
        ),
    decreases f,
{
    let digits = vlq_digits(f);
    let m = 0x1_0000_0000_0000_0000int;
    lemma2_to64();
    lemma2_to64_rest();
    assert(pow2(63) < m);
    lemma_u64_pow2_no_overflow(shift0);
    assert(shift0 <= 60);
    assert(s[i + 0] == vlq_digits(f)[0]);
    if f < 32 {
        lemma_b64_byte_value(f as int);
        assert(s[i] == b64_byte_of(f as int));
        let cur2 = wrap64(cur0 + f * pow2(shift0));
        vstd::arithmetic::div_mod::lemma_small_mod((cur0 + f * pow2(shift0)) as nat, m as nat);
        assert(cur2 == (cur0 + f * pow2(shift0)) as u64);
    } else {
        lemma_b64_byte_value(f as int % 32 + 32);
        assert(s[i] == b64_byte_of(f as int % 32 + 32));
        let enc = b64_value_of(s[i]);
        assert(enc == f as int % 32 + 32);
        let v = enc % 32;
        assert(v == f as int % 32);
        // the low digit lands exactly, no wrap
        assert(v * pow2(shift0) <= f * pow2(shift0)) by (nonlinear_arith)
            requires
                0 <= v <= f,
                pow2(shift0) > 0,
        ;
        vstd::arithmetic::power2::lemma_pow2_pos(shift0);
        let cur2 = wrap64(cur0 + v * pow2(shift0));
        vstd::arithmetic::div_mod::lemma_small_mod((cur0 + v * pow2(shift0)) as nat, m as nat);
        assert(cur2 == (cur0 + v * pow2(shift0)) as u64);
        // the remaining digits carry f / 32, shifted five more bits
        lemma_pow2_adds(shift0, 5);
        assert(pow2(shift0 + 5) == pow2(shift0) * 32);
        assert(f * pow2(shift0) == (f % 32) * pow2(shift0) + (f / 32) * (pow2(shift0) * 32))
            by (nonlinear_arith)
            requires
                f >= 32,
        ;
        assert(cur2 + (f / 32) * pow2(shift0 + 5) == cur0 + f * pow2(shift0));
        assert(vlq_digits(f)[0] == b64_byte_of(f as int % 32 + 32));
        assert(forall|j: int|
            0 <= j < vlq_digits(f / 32).len() ==> s[i + 1 + j] == #[trigger] vlq_digits(
                f / 32,
            )[j]) by {
            assert(forall|j: int|
                0 <= j < vlq_digits(f / 32).len() ==> vlq_digits(f)[j + 1] == #[trigger] vlq_digits(
                    f / 32,
                )[j]);
        }
        lemma_parse_encoded(s, i + 1, cur2, shift0 + 5, acc, f / 32);
    }
}

/// VLQ round trip: every delta of two `u32` values decodes back from its own
/// encoding, which takes at least one and at most seven bytes.
pub proof fn lemma_vlq_round_trip(num: int)
    requires
        -0xffff_ffff <= num <= 0xffff_ffff,
    ensures
        1 <= vlq_encode_bytes(num).len() <= 7,
        parse_segment(vlq_encode_bytes(num), 0, 0u64, 0nat, Seq::<i64>::empty()) == Ok::<
            _,
            Error,
        >((seq![num as i64], vlq_encode_bytes(num).len() as int)),
{
    let f = vlq_fold(num) as nat;
    let enc = vlq_digits(f);
    lemma2_to64();
    lemma2_to64_rest();
    assert(f < pow2(35));
    lemma_vlq_digits_len(f, 7);
    lemma_parse_encoded(enc, 0, 0u64, 0nat, Seq::<i64>::empty(), f);
    assert(f * pow2(0) == f);
    assert(vlq_unfold(f as u64) == num as i64) by {
        lemma_vlq_unfold_fold(num);
    }
    assert(parse_segment(enc, enc.len() as int, 0u64, 0nat, seq![num as i64]) == Ok::<
        _,
        Error,
    >((seq![num as i64], enc.len() as int)));
}

/// Un-folding undoes sign folding.
pub proof fn lemma_vlq_unfold_fold(num: int)
    requires
        -0xffff_ffff <= num <= 0xffff_ffff,
    ensures
        vlq_unfold(vlq_fold(num) as u64) == num as i64,
{
}

/// Scanning one encoded value laid out at `p` pushes exactly that value and
/// carries on just past its bytes with a fresh accumulator.
pub proof fn lemma_parse_one(s: Seq<u8>, p: int, v: int, acc: Seq<i64>)
    requires
        -0xffff_ffff <= v <= 0xffff_ffff,
        0 <= p,
        p + vlq_encode_bytes(v).len() <= s.len(),
        forall|j: int|
            0 <= j < vlq_encode_bytes(v).len() ==> s[p + j] == vlq_encode_bytes(v)[j],
    ensures
        parse_segment(s, p, 0u64, 0nat, acc) == parse_segment(
            s,
            p + vlq_encode_bytes(v).len(),
            0u64,
            0nat,
            acc.push(v as i64),
        ),
{
    let f = vlq_fold(v) as nat;
    lemma2_to64();
    lemma2_to64_rest();
    assert(f < pow2(35));
    lemma_vlq_digits_len(f, 7);
    lemma_parse_encoded(s, p, 0u64, 0nat, acc, f);
    assert(f * pow2(0) == f);
    lemma_vlq_unfold_fold(v);
}

/// Every byte of a VLQ encoding is in the base64 alphabet: never a separator,
/// always ASCII.
pub proof fn lemma_vlq_digits_wire(f: nat)
    ensures
        forall|j: int|
            0 <= j < vlq_digits(f).len() ==> !is_sep(#[trigger] vlq_digits(f)[j]) && vlq_digits(
                f,
            )[j] < 128,
    decreases f,
{
    if f < 32 {
        lemma_b64_byte_value(f as int);
    } else {
        lemma_b64_byte_value(f as int % 32 + 32);
        lemma_vlq_digits_wire(f / 32);
        assert(forall|j: int|
            0 <= j < vlq_digits(f / 32).len() ==> vlq_digits(f)[j + 1] == #[trigger] vlq_digits(
                f / 32,
            )[j]);
        assert(forall|j: int|
            1 <= j < vlq_digits(f).len() ==> #[trigger] vlq_digits(f)[j] == vlq_digits(f / 32)[j
                - 1]);
    }
}

} // verus!
