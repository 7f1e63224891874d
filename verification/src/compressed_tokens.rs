//! Delta-compressed token storage: the first token verbatim, every later one
//! as per-field deltas against its predecessor in the smallest of four
//! formats, with a checkpoint every fixed interval for sub-linear random
//! access.

use vstd::prelude::*;

use crate::token::{Token, INVALID_ID};

verus! {

/// How many tokens lie between two checkpoints.
pub const INDEX_INTERVAL: usize = 256;

/// Per-field formats: 1-byte delta, 2-byte delta, 4-byte delta, or the
/// 4-byte absolute value, the smallest that represents the delta exactly.
pub open spec fn fmt_of(d: int) -> int {
    if -128 <= d <= 127 {
        0
    } else if -32768 <= d <= 32767 {
        1
    } else if -0x8000_0000 <= d <= 0x7fff_ffff {
        2
    } else {
        3
    }
}

/// A value in `[0, 2^8)` as its little-endian byte.
pub open spec fn byte_of(d: int) -> u8 {
    (d % 256) as u8
}

/// A value reduced to 16 bits, as two little-endian bytes.
pub open spec fn le2(d: int) -> Seq<u8> {
    seq![((d % 65536) % 256) as u8, ((d % 65536) / 256) as u8]
}

/// A value reduced to 32 bits, as four little-endian bytes.
pub open spec fn le4(d: int) -> Seq<u8> {
    let w = d % 0x1_0000_0000;
    seq![
        (w % 256) as u8,
        ((w / 256) % 256) as u8,
        ((w / 65536) % 256) as u8,
        ((w / 16777216) % 256) as u8,
    ]
}

/// One field's encoding: the delta in its chosen format, or the absolute
/// value when even four signed bytes cannot hold the delta.
pub open spec fn field_bytes(prev: u32, cur: u32) -> Seq<u8> {
    let d = cur - prev;
    if fmt_of(d) == 0 {
        seq![byte_of(d)]
    } else if fmt_of(d) == 1 {
        le2(d)
    } else if fmt_of(d) == 2 {
        le4(d)
    } else {
        le4(cur as int)
    }
}

/// The header packs the four field formats, two bits each.
pub open spec fn hdr_of(prev: Token, cur: Token) -> u8 {
    (fmt_of(cur.dst_line - prev.dst_line) + 4 * fmt_of(cur.dst_col - prev.dst_col) + 16 * fmt_of(
        cur.src_line - prev.src_line,
    ) + 64 * fmt_of(cur.src_col - prev.src_col)) as u8
}

/// An optional id's encoding: a tag for absent/appeared/vanished, then a
/// small signed delta or a four-byte one.
pub open spec fn id_bytes(prev_id: u32, cur_id: u32) -> Seq<u8> {
    if prev_id == INVALID_ID && cur_id == INVALID_ID {
        seq![0u8]
    } else if prev_id == INVALID_ID {
        seq![1u8] + le4(cur_id as int)
    } else if cur_id == INVALID_ID {
        seq![2u8]
    } else {
        let d = cur_id - prev_id;
        if -127 <= d <= 127 {
            seq![3u8, byte_of(d)]
        } else {
            seq![4u8] + le4(d)
        }
    }
}

/// One compressed token: the header, the four fields, the two ids.
pub open spec fn compress_pair(prev: Token, cur: Token) -> Seq<u8> {
    seq![hdr_of(prev, cur)] + field_bytes(prev.dst_line, cur.dst_line) + field_bytes(
        prev.dst_col,
        cur.dst_col,
    ) + field_bytes(prev.src_line, cur.src_line) + field_bytes(prev.src_col, cur.src_col)
        + id_bytes(prev.source_id, cur.source_id) + id_bytes(prev.name_id, cur.name_id)
}

/// The compressed bytes of the tokens from index `i` on, each against its
/// predecessor.
pub open spec fn stream_bytes(ts: Seq<Token>, i: int) -> Seq<u8>
    decreases ts.len() - i,
{
    if i < 1 || i >= ts.len() {
        Seq::<u8>::empty()
    } else {
        compress_pair(ts[i - 1], ts[i]) + stream_bytes(ts, i + 1)
    }
}

fn push_le4(data: &mut Vec<u8>, x: u32)
    ensures
        final(data)@ =~= old(data)@ + le4(x as int),
{
    data.push((x % 256) as u8);
    data.push(((x / 256) % 256) as u8);
    data.push(((x / 65536) % 256) as u8);
    data.push((x / 16777216) as u8);
    proof {
        vstd::arithmetic::div_mod::lemma_small_mod(x as nat, 0x1_0000_0000nat);
        assert(x / 16777216 < 256);
        vstd::arithmetic::div_mod::lemma_small_mod((x / 16777216) as nat, 256nat);
    }
}

fn read_le4(data: &[u8], pos: usize) -> (r: u32)
    requires
        pos + 4 <= data@.len(),
    ensures
        r == data@[pos as int] + 256 * data@[pos + 1] + 65536 * data@[pos + 2] + 16777216
            * data@[pos + 3],
{
    data[pos] as u32 + data[pos + 1] as u32 * 256 + data[pos + 2] as u32 * 65536 + data[pos
        + 3] as u32 * 16777216
}

/// Recomposing the four little-endian bytes gives back the reduced value.
proof fn lemma_le4_value(d: int)
    requires
        0 <= d < 0x1_0000_0000,
    ensures
        le4(d)[0] + 256 * le4(d)[1] + 65536 * le4(d)[2] + 16777216 * le4(d)[3] == d,
{
    vstd::arithmetic::div_mod::lemma_small_mod(d as nat, 0x1_0000_0000nat);
    assert(d % 256 + 256 * ((d / 256) % 256) + 65536 * ((d / 65536) % 256) + 16777216 * ((d
        / 16777216) % 256) == d) by (nonlinear_arith)
        requires
            0 <= d < 0x1_0000_0000,
    ;
}

/// A value in `[0, 2^16)` recomposes from its two bytes.
proof fn lemma_le2_value(d: int)
    requires
        0 <= d < 65536,
    ensures
        le2(d)[0] + 256 * le2(d)[1] == d,
{
    vstd::arithmetic::div_mod::lemma_small_mod(d as nat, 65536nat);
    assert(d % 256 + 256 * (d / 256) == d) by (nonlinear_arith)
        requires
            0 <= d < 65536,
    ;
}

/// The field delta lifted to a non-negative representative, so executable
/// remainders stay on non-negative values.
fn lift_mod(d: i64, m: u32) -> (r: u32)
    requires
        -0x1_0000_0000 < d < 0x1_0000_0000,
        m == 256 || m == 65536,
    ensures
        r == (d as int) % (m as int),
{
    proof {
        vstd::arithmetic::div_mod::lemma_mod_multiples_vanish(
            (0x1_0000_0000i64 / (m as i64)) as int,
            d as int,
            m as int,
        );
    }
    ((d + 0x1_0000_0000i64) % (m as i64)) as u32
}

/// As `lift_mod`, reduced to 32 bits.
fn lift_mod32(d: i64) -> (r: u32)
    requires
        -0x1_0000_0000 < d < 0x1_0000_0000,
    ensures
        r == (d as int) % 0x1_0000_0000,
{
    proof {
        vstd::arithmetic::div_mod::lemma_mod_multiples_vanish(1, d as int, 0x1_0000_0000int);
    }
    ((d + 0x1_0000_0000i64) % 0x1_0000_0000i64) as u32
}

/// Which format a field's delta takes.
fn field_fmt(d: i64) -> (r: u8)
    requires
        -0x1_0000_0000 < d < 0x1_0000_0000,
    ensures
        r == fmt_of(d as int),
{
    if -128 <= d && d <= 127 {
        0
    } else if -32768 <= d && d <= 32767 {
        1
    } else if -0x8000_0000 <= d && d <= 0x7fff_ffff {
        2
    } else {
        3
    }
}

/// Append one field in the format its delta asks for.
fn push_field(data: &mut Vec<u8>, prev: u32, cur: u32)
    ensures
        final(data)@ =~= old(data)@ + field_bytes(prev, cur),
{
    let d: i64 = cur as i64 - prev as i64;
    let fmt = field_fmt(d);
    if fmt == 0 {
        data.push(lift_mod(d, 256) as u8);
    } else if fmt == 1 {
        let w = lift_mod(d, 65536);
        data.push((w % 256) as u8);
        data.push((w / 256) as u8);
        proof {
            assert(w / 256 < 256);
        }
    } else if fmt == 2 {
        let w32 = lift_mod32(d);
        push_le4(data, w32);
        proof {
            assert(le4(w32 as int) =~= le4(d as int)) by {
                vstd::arithmetic::div_mod::lemma_mod_twice(d as int, 0x1_0000_0000int);
                vstd::arithmetic::div_mod::lemma_small_mod(
                    ((d as int) % 0x1_0000_0000int) as nat,
                    0x1_0000_0000nat,
                );
            }
        }
    } else {
        push_le4(data, cur);
    }
}

/// Append one optional id.
fn push_id(data: &mut Vec<u8>, prev_id: u32, cur_id: u32)
    ensures
        final(data)@ =~= old(data)@ + id_bytes(prev_id, cur_id),
{
    if prev_id == INVALID_ID && cur_id == INVALID_ID {
        data.push(0);
    } else if prev_id == INVALID_ID {
        data.push(1);
        push_le4(data, cur_id);
        proof {
            vstd::arithmetic::div_mod::lemma_small_mod(cur_id as nat, 0x1_0000_0000nat);
        }
    } else if cur_id == INVALID_ID {
        data.push(2);
    } else {
        let d: i64 = cur_id as i64 - prev_id as i64;
        if -127 <= d && d <= 127 {
            data.push(3);
            data.push(lift_mod(d, 256) as u8);
        } else {
            data.push(4);
            let w32 = lift_mod32(d);
            push_le4(data, w32);
            proof {
                assert(le4(w32 as int) =~= le4(d as int)) by {
                    vstd::arithmetic::div_mod::lemma_mod_twice(d as int, 0x1_0000_0000int);
                    vstd::arithmetic::div_mod::lemma_small_mod(
                        ((d as int) % 0x1_0000_0000int) as nat,
                        0x1_0000_0000nat,
                    );
                }
            }
        }
    }
}

/// Bytes of a part found inside a whole laid out at `p`.
proof fn lemma_part_at(s: Seq<u8>, p: int, whole: Seq<u8>, off: int, part: Seq<u8>)
    requires
        0 <= p,
        0 <= off,
        off + part.len() <= whole.len(),
        p + whole.len() <= s.len(),
        forall|j: int| 0 <= j < whole.len() ==> s[p + j] == whole[j],
        forall|j: int| 0 <= j < part.len() ==> whole[off + j] == #[trigger] part[j],
    ensures
        forall|j: int| 0 <= j < part.len() ==> s[p + off + j] == #[trigger] part[j],
{
    assert forall|j: int| 0 <= j < part.len() implies s[p + off + j] == #[trigger] part[j] by {
        assert(s[p + (off + j)] == whole[off + j]);
    }
}

/// Base-4 packing of the four formats is invertible.
proof fn lemma_hdr_unpack(a: int, b: int, c: int, d: int)
    by (nonlinear_arith)
    requires
        0 <= a < 4,
        0 <= b < 4,
        0 <= c < 4,
        0 <= d < 4,
    ensures
        (a + 4 * b + 16 * c + 64 * d) % 4 == a,
        ((a + 4 * b + 16 * c + 64 * d) / 4) % 4 == b,
        ((a + 4 * b + 16 * c + 64 * d) / 16) % 4 == c,
        (a + 4 * b + 16 * c + 64 * d) / 64 == d,
        a + 4 * b + 16 * c + 64 * d < 256,
{
}

/// Read one field laid out at `pos`, in the format the header named.
#[verifier::rlimit(80)]
fn read_field(data: &[u8], pos: usize, prev_field: u32, fmt: u8, Ghost(cur): Ghost<u32>) -> (r: (
    u32,
    usize,
))
    requires
        fmt == fmt_of(cur - prev_field),
        pos + field_bytes(prev_field, cur).len() <= data@.len(),
        forall|j: int|
            0 <= j < field_bytes(prev_field, cur).len() ==> data@[pos + j] == #[trigger] field_bytes(
                prev_field,
                cur,
            )[j],
    ensures
        r.0 == cur,
        r.1 == pos + field_bytes(prev_field, cur).len(),
{
    let dlen: usize = data.len();
    let ghost d = cur - prev_field;
    if fmt == 0 {
        let b = data[pos];
        proof {
            assert(data@[pos as int] == field_bytes(prev_field, cur)[0]);
            assert(b == byte_of(d));
        }
        let s: i64 = if b < 128 {
            b as i64
        } else {
            b as i64 - 256
        };
        proof {
            if d >= 0 {
                vstd::arithmetic::div_mod::lemma_small_mod(d as nat, 256nat);
            } else {
                vstd::arithmetic::div_mod::lemma_mod_multiples_vanish(1, d, 256);
                vstd::arithmetic::div_mod::lemma_small_mod((d + 256) as nat, 256nat);
            }
            assert(s == d);
        }
        (((prev_field as i64 + s) as u32), pos + 1)
    } else if fmt == 1 {
        let w: u32 = data[pos] as u32 + data[pos + 1] as u32 * 256;
        proof {
            assert(data@[pos as int] == field_bytes(prev_field, cur)[0]);
            assert(data@[pos + 1] == field_bytes(prev_field, cur)[1]);
            vstd::arithmetic::div_mod::lemma_mod_twice(d, 65536);
            lemma_le2_value(d % 65536);
            assert(le2(d)[0] == le2(d % 65536)[0]);
            assert(le2(d)[1] == le2(d % 65536)[1]);
            assert(w == d % 65536);
            if d >= 0 {
                vstd::arithmetic::div_mod::lemma_small_mod(d as nat, 65536nat);
            } else {
                vstd::arithmetic::div_mod::lemma_mod_multiples_vanish(1, d, 65536);
                vstd::arithmetic::div_mod::lemma_small_mod((d + 65536) as nat, 65536nat);
            }
        }
        let s: i64 = if w < 32768 {
            w as i64
        } else {
            w as i64 - 65536
        };
        proof {
            assert(s == d);
        }
        (((prev_field as i64 + s) as u32), pos + 2)
    } else if fmt == 2 {
        let w = read_le4(data, pos);
        proof {
            assert(data@[pos as int] == field_bytes(prev_field, cur)[0]);
            assert(data@[pos + 1] == field_bytes(prev_field, cur)[1]);
            assert(data@[pos + 2] == field_bytes(prev_field, cur)[2]);
            assert(data@[pos + 3] == field_bytes(prev_field, cur)[3]);
            vstd::arithmetic::div_mod::lemma_mod_twice(d, 0x1_0000_0000);
            lemma_le4_value(d % 0x1_0000_0000);
            assert(le4(d)[0] == le4(d % 0x1_0000_0000)[0]);
            assert(le4(d)[1] == le4(d % 0x1_0000_0000)[1]);
            assert(le4(d)[2] == le4(d % 0x1_0000_0000)[2]);
            assert(le4(d)[3] == le4(d % 0x1_0000_0000)[3]);
            assert(w == d % 0x1_0000_0000);
            if d >= 0 {
                vstd::arithmetic::div_mod::lemma_small_mod(d as nat, 0x1_0000_0000nat);
            } else {
                vstd::arithmetic::div_mod::lemma_mod_multiples_vanish(1, d, 0x1_0000_0000);
                vstd::arithmetic::div_mod::lemma_small_mod(
                    (d + 0x1_0000_0000) as nat,
                    0x1_0000_0000nat,
                );
            }
        }
        let s: i64 = if w < 0x8000_0000 {
            w as i64
        } else {
            w as i64 - 0x1_0000_0000i64
        };
        proof {
            assert(s == d);
            assert(field_bytes(prev_field, cur).len() == 4);
        }
        (((prev_field as i64 + s) as u32), pos + 4)
    } else {
        let w = read_le4(data, pos);
        proof {
            assert(data@[pos as int] == field_bytes(prev_field, cur)[0]);
            assert(data@[pos + 1] == field_bytes(prev_field, cur)[1]);
            assert(data@[pos + 2] == field_bytes(prev_field, cur)[2]);
            assert(data@[pos + 3] == field_bytes(prev_field, cur)[3]);
            vstd::arithmetic::div_mod::lemma_small_mod(cur as nat, 0x1_0000_0000nat);
            lemma_le4_value(cur as int);
            assert(w == cur);
            assert(field_bytes(prev_field, cur).len() == 4);
        }
        (w, pos + 4)
    }
}

/// Read one optional id laid out at `pos`.
#[verifier::rlimit(80)]
fn read_id(data: &[u8], pos: usize, prev_id: u32, Ghost(cur_id): Ghost<u32>) -> (r: (u32, usize))
    requires
        pos + id_bytes(prev_id, cur_id).len() <= data@.len(),
        forall|j: int|
            0 <= j < id_bytes(prev_id, cur_id).len() ==> data@[pos + j] == #[trigger] id_bytes(
                prev_id,
                cur_id,
            )[j],
    ensures
        r.0 == cur_id,
        r.1 == pos + id_bytes(prev_id, cur_id).len(),
{
    let tag = data[pos];
    proof {
        assert(data@[pos as int] == id_bytes(prev_id, cur_id)[0]);
        if prev_id != INVALID_ID && cur_id != INVALID_ID {
            let d = cur_id - prev_id;
            if !(-127 <= d <= 127) {
                assert((seq![4u8] + le4(d))[0] == 4u8);
            }
        }
        if prev_id == INVALID_ID && cur_id != INVALID_ID {
            assert((seq![1u8] + le4(cur_id as int))[0] == 1u8);
        }
    }
    if tag == 0 {
        (INVALID_ID, pos + 1)
    } else if tag == 1 {
        let w = read_le4(data, pos + 1);
        proof {
            assert(data@[pos + 1] == id_bytes(prev_id, cur_id)[1]);
            assert(data@[pos + 2] == id_bytes(prev_id, cur_id)[2]);
            assert(data@[pos + 3] == id_bytes(prev_id, cur_id)[3]);
            assert(data@[pos + 4] == id_bytes(prev_id, cur_id)[4]);
            assert(forall|j: int|
                0 <= j < 4 ==> (seq![1u8] + le4(cur_id as int))[1 + j] == #[trigger] le4(
                    cur_id as int,
                )[j]);
            vstd::arithmetic::div_mod::lemma_small_mod(cur_id as nat, 0x1_0000_0000nat);
            lemma_le4_value(cur_id as int);
            assert(w == cur_id);
        }
        (w, pos + 5)
    } else if tag == 2 {
        (INVALID_ID, pos + 1)
    } else if tag == 3 {
        let ghost d = cur_id - prev_id;
        let b = data[pos + 1];
        proof {
            assert(data@[pos + 1] == id_bytes(prev_id, cur_id)[1]);
            assert(b == byte_of(d));
            if d >= 0 {
                vstd::arithmetic::div_mod::lemma_small_mod(d as nat, 256nat);
            } else {
                vstd::arithmetic::div_mod::lemma_mod_multiples_vanish(1, d, 256);
                vstd::arithmetic::div_mod::lemma_small_mod((d + 256) as nat, 256nat);
            }
        }
        let s: i64 = if b < 128 {
            b as i64
        } else {
            b as i64 - 256
        };
        proof {
            assert(s == d);
        }
        (((prev_id as i64 + s) as u32), pos + 2)
    } else {
        let ghost d = cur_id - prev_id;
        let w = read_le4(data, pos + 1);
        proof {
            assert(data@[pos + 1] == id_bytes(prev_id, cur_id)[1]);
            assert(data@[pos + 2] == id_bytes(prev_id, cur_id)[2]);
            assert(data@[pos + 3] == id_bytes(prev_id, cur_id)[3]);
            assert(data@[pos + 4] == id_bytes(prev_id, cur_id)[4]);
            assert(forall|j: int|
                0 <= j < 4 ==> (seq![4u8] + le4(d))[1 + j] == #[trigger] le4(d)[j]);
            vstd::arithmetic::div_mod::lemma_mod_twice(d, 0x1_0000_0000);
            lemma_le4_value(d % 0x1_0000_0000);
            assert(le4(d)[0] == le4(d % 0x1_0000_0000)[0]);
            assert(le4(d)[1] == le4(d % 0x1_0000_0000)[1]);
            assert(le4(d)[2] == le4(d % 0x1_0000_0000)[2]);
            assert(le4(d)[3] == le4(d % 0x1_0000_0000)[3]);
            assert(w == d % 0x1_0000_0000);
        }
        let v: u32 = ((prev_id as u64 + w as u64) % 0x1_0000_0000u64) as u32;
        proof {
            vstd::arithmetic::div_mod::lemma_add_mod_noop(
                prev_id as int,
                w as int,
                0x1_0000_0000int,
            );
            vstd::arithmetic::div_mod::lemma_add_mod_noop(prev_id as int, d, 0x1_0000_0000int);
            vstd::arithmetic::div_mod::lemma_mod_twice(d, 0x1_0000_0000);
            vstd::arithmetic::div_mod::lemma_small_mod(prev_id as nat, 0x1_0000_0000nat);
            vstd::arithmetic::div_mod::lemma_small_mod(cur_id as nat, 0x1_0000_0000nat);
            assert(v == cur_id);
        }
        (v, pos + 5)
    }
}

/// Read one compressed token laid out at `pos`, against its predecessor.
#[verifier::rlimit(60)]
fn decompress_token_delta(data: &[u8], pos: usize, prev: Token, Ghost(expected): Ghost<Token>) -> (r: (
    Token,
    usize,
))
    requires
        pos + compress_pair(prev, expected).len() <= data@.len(),
        forall|j: int|
            0 <= j < compress_pair(prev, expected).len() ==> data@[pos + j]
                == #[trigger] compress_pair(prev, expected)[j],
    ensures
        r.0 == expected,
        r.1 == pos + compress_pair(prev, expected).len(),
{
    let ghost cp = compress_pair(prev, expected);
    let ghost h: Seq<u8> = seq![hdr_of(prev, expected)];
    let ghost f1 = field_bytes(prev.dst_line, expected.dst_line);
    let ghost f2 = field_bytes(prev.dst_col, expected.dst_col);
    let ghost f3 = field_bytes(prev.src_line, expected.src_line);
    let ghost f4 = field_bytes(prev.src_col, expected.src_col);
    let ghost id1 = id_bytes(prev.source_id, expected.source_id);
    let ghost id2 = id_bytes(prev.name_id, expected.name_id);
    proof {
        assert(cp == h + f1 + f2 + f3 + f4 + id1 + id2);
        let w6 = h + f1 + f2 + f3 + f4 + id1;
        let w5 = h + f1 + f2 + f3 + f4;
        let w4 = h + f1 + f2 + f3;
        let w3 = h + f1 + f2;
        let w2 = h + f1;
        assert forall|j: int| 0 <= j < w6.len() implies cp[j] == #[trigger] w6[j] by {
            assert((w6 + id2)[j] == w6[j]);
        }
        assert forall|j: int| 0 <= j < w5.len() implies cp[j] == #[trigger] w5[j] by {
            assert((w6 + id2)[j] == w6[j]);
            assert((w5 + id1)[j] == w5[j]);
        }
        assert forall|j: int| 0 <= j < w4.len() implies cp[j] == #[trigger] w4[j] by {
            assert((w6 + id2)[j] == w6[j]);
            assert((w5 + id1)[j] == w5[j]);
            assert((w4 + f4)[j] == w4[j]);
        }
        assert forall|j: int| 0 <= j < w3.len() implies cp[j] == #[trigger] w3[j] by {
            assert((w6 + id2)[j] == w6[j]);
            assert((w5 + id1)[j] == w5[j]);
            assert((w4 + f4)[j] == w4[j]);
            assert((w3 + f3)[j] == w3[j]);
        }
        assert forall|j: int| 0 <= j < w2.len() implies cp[j] == #[trigger] w2[j] by {
            assert((w6 + id2)[j] == w6[j]);
            assert((w5 + id1)[j] == w5[j]);
            assert((w4 + f4)[j] == w4[j]);
            assert((w3 + f3)[j] == w3[j]);
            assert((w2 + f2)[j] == w2[j]);
        }
        // each piece sits at its offset inside cp
        assert forall|j: int| 0 <= j < f1.len() implies cp[1 + j] == #[trigger] f1[j] by {
            assert(cp[1 + j] == w2[1 + j]);
            assert((h + f1)[1 + j] == f1[j]);
        }
        assert forall|j: int| 0 <= j < f2.len() implies cp[1 + f1.len() + j] == #[trigger] f2[j] by {
            assert(cp[w2.len() + j] == w3[w2.len() + j]);
            assert((w2 + f2)[w2.len() + j] == f2[j]);
        }
        assert forall|j: int| 0 <= j < f3.len() implies cp[1 + f1.len() + f2.len() + j]
            == #[trigger] f3[j] by {
            assert(cp[w3.len() + j] == w4[w3.len() + j]);
            assert((w3 + f3)[w3.len() + j] == f3[j]);
        }
        assert forall|j: int| 0 <= j < f4.len() implies cp[1 + f1.len() + f2.len() + f3.len() + j]
            == #[trigger] f4[j] by {
            assert(cp[w4.len() + j] == w5[w4.len() + j]);
            assert((w4 + f4)[w4.len() + j] == f4[j]);
        }
        assert forall|j: int| 0 <= j < id1.len() implies cp[1 + f1.len() + f2.len() + f3.len()
            + f4.len() + j] == #[trigger] id1[j] by {
            assert(cp[w5.len() + j] == w6[w5.len() + j]);
            assert((w5 + id1)[w5.len() + j] == id1[j]);
        }
        assert forall|j: int| 0 <= j < id2.len() implies cp[1 + f1.len() + f2.len() + f3.len()
            + f4.len() + id1.len() + j] == #[trigger] id2[j] by {
            assert((w6 + id2)[w6.len() + j] == id2[j]);
        }
        lemma_part_at(data@, pos as int, cp, 1, f1);
        lemma_part_at(data@, pos as int, cp, 1 + f1.len() as int, f2);
        lemma_part_at(data@, pos as int, cp, 1 + f1.len() + f2.len() as int, f3);
        lemma_part_at(data@, pos as int, cp, 1 + f1.len() + f2.len() + f3.len() as int, f4);
        lemma_part_at(
            data@,
            pos as int,
            cp,
            1 + f1.len() + f2.len() + f3.len() + f4.len() as int,
            id1,
        );
        lemma_part_at(
            data@,
            pos as int,
            cp,
            1 + f1.len() + f2.len() + f3.len() + f4.len() + id1.len() as int,
            id2,
        );
        lemma_hdr_unpack(
            fmt_of(expected.dst_line - prev.dst_line),
            fmt_of(expected.dst_col - prev.dst_col),
            fmt_of(expected.src_line - prev.src_line),
            fmt_of(expected.src_col - prev.src_col),
        );
    }
    let hdr = data[pos];
    proof {
        assert(data@[pos + 0] == cp[0]);
        assert(cp[0] == hdr_of(prev, expected)) by {
            assert(((h + f1) + f2)[0] == (h + f1)[0]);
            assert((h + f1)[0] == h[0]);
        }
    }
    let f_dl = hdr % 4;
    let f_dc = (hdr / 4) % 4;
    let f_sl = (hdr / 16) % 4;
    let f_sc = hdr / 64;
    let p1 = pos + 1;
    let (dst_line, p2) = read_field(data, p1, prev.dst_line, f_dl, Ghost(expected.dst_line));
    let (dst_col, p3) = read_field(data, p2, prev.dst_col, f_dc, Ghost(expected.dst_col));
    let (src_line, p4) = read_field(data, p3, prev.src_line, f_sl, Ghost(expected.src_line));
    let (src_col, p5) = read_field(data, p4, prev.src_col, f_sc, Ghost(expected.src_col));
    let (source_id, p6) = read_id(data, p5, prev.source_id, Ghost(expected.source_id));
    let (name_id, p7) = read_id(data, p6, prev.name_id, Ghost(expected.name_id));
    (Token { dst_line, dst_col, src_line, src_col, source_id, name_id }, p7)
}

/// Append one token, compressed against its predecessor.
fn compress_token_delta(data: &mut Vec<u8>, prev: Token, token: Token)
    ensures
        final(data)@ =~= old(data)@ + compress_pair(prev, token),
{
    let f_dl = field_fmt(token.dst_line as i64 - prev.dst_line as i64);
    let f_dc = field_fmt(token.dst_col as i64 - prev.dst_col as i64);
    let f_sl = field_fmt(token.src_line as i64 - prev.src_line as i64);
    let f_sc = field_fmt(token.src_col as i64 - prev.src_col as i64);
    let hdr: u8 = f_dl + 4 * f_dc + 16 * f_sl + 64 * f_sc;
    data.push(hdr);
    push_field(data, prev.dst_line, token.dst_line);
    push_field(data, prev.dst_col, token.dst_col);
    push_field(data, prev.src_line, token.src_line);
    push_field(data, prev.src_col, token.src_col);
    push_id(data, prev.source_id, token.source_id);
    push_id(data, prev.name_id, token.name_id);
}

/// Walking one token forward moves the checkpoint count only at interval
/// boundaries.
proof fn lemma_div_step(i: int)
    by (nonlinear_arith)
    requires
        i >= 1,
    ensures
        i % 256 == 0 ==> (i - 1) / 256 + 1 == i / 256,
        i % 256 != 0 ==> (i - 1) / 256 == i / 256,
{
}

/// One checkpoint: a token and the byte offset where the pairs after it
/// begin.
#[derive(Debug, Clone, Copy)]
pub struct IndexEntry {
    pub offset: usize,
    pub token: Token,
}

/// Delta-compressed token storage with checkpointed random access: the first
/// token verbatim, deltas for the rest, a checkpoint every
/// [`INDEX_INTERVAL`] tokens.
#[derive(Clone)]
pub struct CompressedTokens {
    first_token: Option<Token>,
    data: Vec<u8>,
    count: usize,
    index: Vec<IndexEntry>,
    tokens: Ghost<Seq<Token>>,
}

impl CompressedTokens {
    /// The token sequence this storage stands for.
    pub closed spec fn view(self) -> Seq<Token> {
        self.tokens@
    }

    /// The stored bytes really are the compression of the token sequence,
    /// and every checkpoint points into them correctly.
    pub closed spec fn wf(self) -> bool {
        &&& self.count == self.tokens@.len()
        &&& (self.count == 0 ==> self.first_token is None)
        &&& (self.count > 0 ==> self.first_token == Some(self.tokens@[0]))
        &&& self.data@ == stream_bytes(self.tokens@, 1)
        &&& (self.count > 0 ==> self.index@.len() >= 1)
        &&& forall|k: int|
            0 <= k < self.index@.len() ==> {
                let e = #[trigger] self.index@[k];
                &&& 256 * k < self.count
                &&& e.token == self.tokens@[256 * k]
                &&& e.offset <= self.data@.len()
                &&& self.data@.skip(e.offset as int) == stream_bytes(self.tokens@, 256 * k + 1)
            }
    }

    /// Compress a token slice: the first verbatim, each later one as deltas
    /// from its predecessor, one checkpoint every [`INDEX_INTERVAL`] tokens.
    pub fn from_tokens(tokens: &[Token]) -> (r: CompressedTokens)
        ensures
            r.wf(),
            r@ == tokens@,
    {
        let n = tokens.len();
        if n == 0 {
            let r = CompressedTokens {
                first_token: None,
                data: Vec::new(),
                count: 0,
                index: Vec::new(),
                tokens: Ghost(Seq::<Token>::empty()),
            };
            proof {
                assert(r@ =~= tokens@);
            }
            return r;
        }
        let ghost ts = tokens@;
        let first_token = tokens[0];
        let mut data: Vec<u8> = Vec::new();
        let mut index: Vec<IndexEntry> = Vec::new();
        index.push(IndexEntry { offset: 0, token: first_token });
        let mut prev_token = first_token;
        let mut i: usize = 1;
        while i < n
            invariant
                n == ts.len(),
                ts == tokens@,
                0 < n,
                1 <= i <= n,
                prev_token == ts[i - 1],
                first_token == ts[0],
                data@ + stream_bytes(ts, i as int) =~= stream_bytes(ts, 1),
                index@.len() == 1 + (i - 1) / 256,
                index@.len() >= 1,
                forall|k: int|
                    0 <= k < index@.len() ==> {
                        let e = #[trigger] index@[k];
                        &&& 256 * k < i
                        &&& e.token == ts[256 * k]
                        &&& e.offset <= data@.len()
                        &&& data@.skip(e.offset as int) + stream_bytes(ts, i as int)
                            =~= stream_bytes(ts, 256 * k + 1)
                    },
            decreases n - i,
        {
            let token = tokens[i];
            compress_token_delta(&mut data, prev_token, token);
            proof {
                assert(stream_bytes(ts, i as int) == compress_pair(ts[i - 1], ts[i as int])
                    + stream_bytes(ts, i + 1));
            }
            if i % INDEX_INTERVAL == 0 {
                proof {
                    lemma_div_step(i as int);
                    assert(256 * (1 + (i - 1) / 256) == i) by (nonlinear_arith)
                        requires
                            i >= 1 && i % 256 == 0,
                    ;
                }
                index.push(IndexEntry { offset: data.len(), token });
            }
            proof {
                lemma_div_step(i as int);
            }
            prev_token = token;
            i = i + 1;
        }
        let r = CompressedTokens {
            first_token: Some(first_token),
            data,
            count: n,
            index,
            tokens: Ghost(ts),
        };
        proof {
            assert(stream_bytes(ts, n as int) =~= Seq::<u8>::empty());
            assert(r.data@ =~= stream_bytes(ts, 1));
            assert(forall|k: int|
                0 <= k < r.index@.len() ==> (#[trigger] r.index@[k]).offset <= r.data@.len()
                    && r.data@.skip(r.index@[k].offset as int) =~= stream_bytes(ts, 256 * k + 1));
        }
        r
    }

    pub fn len(&self) -> (r: usize)
        requires
            self.wf(),
        ensures
            r == self@.len(),
    {
        self.count
    }

    pub fn is_empty(&self) -> (r: bool)
        requires
            self.wf(),
        ensures
            r == (self@.len() == 0),
    {
        self.count == 0
    }

    /// Random access: jump to the checkpoint at or before the index, then
    /// decompress forward.
    pub fn get(&self, index: usize) -> (r: Option<Token>)
        requires
            self.wf(),
        ensures
            r == if index < self@.len() {
                Some(self@[index as int])
            } else {
                None::<Token>
            },
    {
        let ghost ts = self.tokens@;
        if index >= self.count {
            return None;
        }
        if index == 0 {
            return self.first_token;
        }
        let index_pos = index / INDEX_INTERVAL;
        let k = if index_pos < self.index.len() {
            index_pos
        } else {
            self.index.len() - 1
        };
        proof {
            vstd::arithmetic::div_mod::lemma_fundamental_div_mod(index as int, 256);
            assert(256 * (k as int) <= index);
        }
        let entry = self.index[k];
        let mut current = entry.token;
        let mut data_pos = entry.offset;
        let start = k * INDEX_INTERVAL;
        let mut i = start;
        while i < index
            invariant
                self.wf(),
                ts == self.tokens@,
                i <= index < self.count,
                current == ts[i as int],
                data_pos <= self.data@.len(),
                self.data@.skip(data_pos as int) == stream_bytes(ts, i + 1),
            decreases index - i,
        {
            proof {
                assert(stream_bytes(ts, i + 1) == compress_pair(ts[i as int], ts[i + 1])
                    + stream_bytes(ts, i + 2));
                assert forall|j: int|
                    0 <= j < compress_pair(ts[i as int], ts[i + 1]).len() implies self.data@[
                    data_pos + j] == #[trigger] compress_pair(ts[i as int], ts[i + 1])[j] by {
                    assert(self.data@.skip(data_pos as int)[j] == self.data@[data_pos + j]);
                    assert((compress_pair(ts[i as int], ts[i + 1]) + stream_bytes(ts, i + 2))[j]
                        == compress_pair(ts[i as int], ts[i + 1])[j]);
                }
            }
            let (next, next_pos) = decompress_token_delta(
                self.data.as_slice(),
                data_pos,
                current,
                Ghost(ts[i + 1]),
            );
            proof {
                let cp = compress_pair(ts[i as int], ts[i + 1]);
                assert forall|j: int|
                    0 <= j < stream_bytes(ts, i + 2).len() implies self.data@.skip(
                    next_pos as int,
                )[j] == #[trigger] stream_bytes(ts, i + 2)[j] by {
                    assert(self.data@.skip(data_pos as int)[cp.len() + j] == self.data@[data_pos
                        + cp.len() + j]);
                    assert((cp + stream_bytes(ts, i + 2))[cp.len() + j] == stream_bytes(
                        ts,
                        i + 2,
                    )[j]);
                }
                assert(self.data@.skip(next_pos as int) =~= stream_bytes(ts, i + 2));
            }
            current = next;
            data_pos = next_pos;
            i = i + 1;
        }
        Some(current)
    }

    /// A cursor over the whole stream.
    pub fn iter(&self) -> (r: CompressedTokenIterator<'_>)
        requires
            self.wf(),
        ensures
            r.valid(),
            r.stream() == self@,
            r.at() == 0,
    {
        CompressedTokenIterator {
            tokens: self,
            index: 0,
            current_token: self.first_token,
            data_pos: 0,
        }
    }

    /// The whole stream, decompressed in one forward pass.
    pub fn to_vec(&self) -> (r: Vec<Token>)
        requires
            self.wf(),
        ensures
            r@ == self@,
    {
        let ghost ts = self.tokens@;
        let mut out: Vec<Token> = Vec::new();
        if self.count == 0 {
            proof {
                assert(out@ =~= self@);
            }
            return out;
        }
        let first = match self.first_token {
            Some(t) => t,
            None => {
                proof {
                    assert(false);
                }
                Token::new(0, 0, 0, 0, None, None)
            },
        };
        out.push(first);
        let mut current = first;
        let mut data_pos: usize = 0;
        let mut i: usize = 1;
        while i < self.count
            invariant
                self.wf(),
                ts == self.tokens@,
                1 <= i <= self.count,
                current == ts[i - 1],
                data_pos <= self.data@.len(),
                self.data@.skip(data_pos as int) == stream_bytes(ts, i as int),
                out@ =~= ts.take(i as int),
            decreases self.count - i,
        {
            proof {
                assert(stream_bytes(ts, i as int) == compress_pair(ts[i - 1], ts[i as int])
                    + stream_bytes(ts, i + 1));
                assert forall|j: int|
                    0 <= j < compress_pair(ts[i - 1], ts[i as int]).len() implies self.data@[
                    data_pos + j] == #[trigger] compress_pair(ts[i - 1], ts[i as int])[j] by {
                    assert(self.data@.skip(data_pos as int)[j] == self.data@[data_pos + j]);
                    assert((compress_pair(ts[i - 1], ts[i as int]) + stream_bytes(ts, i + 1))[j]
                        == compress_pair(ts[i - 1], ts[i as int])[j]);
                }
            }
            let (next, next_pos) = decompress_token_delta(
                self.data.as_slice(),
                data_pos,
                current,
                Ghost(ts[i as int]),
            );
            proof {
                let cp = compress_pair(ts[i - 1], ts[i as int]);
                assert forall|j: int|
                    0 <= j < stream_bytes(ts, i + 1).len() implies self.data@.skip(
                    next_pos as int,
                )[j] == #[trigger] stream_bytes(ts, i + 1)[j] by {
                    assert(self.data@.skip(data_pos as int)[cp.len() + j] == self.data@[data_pos
                        + cp.len() + j]);
                    assert((cp + stream_bytes(ts, i + 1))[cp.len() + j] == stream_bytes(
                        ts,
                        i + 1,
                    )[j]);
                }
                assert(self.data@.skip(next_pos as int) =~= stream_bytes(ts, i + 1));
                assert(ts.take(i + 1) =~= ts.take(i as int).push(ts[i as int]));
            }
            out.push(next);
            current = next;
            data_pos = next_pos;
            i = i + 1;
        }
        proof {
            assert(ts.take(self.count as int) =~= ts);
        }
        out
    }
}

/// A cursor over a [`CompressedTokens`] store, decompressing as it goes.
pub struct CompressedTokenIterator<'a> {
    tokens: &'a CompressedTokens,
    index: usize,
    current_token: Option<Token>,
    data_pos: usize,
}

impl<'a> CompressedTokenIterator<'a> {
    /// The token sequence being walked.
    pub closed spec fn stream(self) -> Seq<Token> {
        self.tokens@
    }

    /// How many tokens were already handed out.
    pub closed spec fn at(self) -> int {
        self.index as int
    }

    /// The cursor points between tokens, with the running state decompression
    /// needs.
    pub closed spec fn valid(self) -> bool {
        &&& self.tokens.wf()
        &&& self.index <= self.tokens@.len()
        &&& (self.index == 0 ==> {
            &&& (self.tokens@.len() > 0 ==> self.current_token == Some(self.tokens@[0]))
            &&& (self.tokens@.len() == 0 ==> self.current_token is None)
            &&& self.data_pos == 0
        })
        &&& (self.index >= 1 ==> {
            &&& self.current_token == Some(self.tokens@[self.index - 1])
            &&& self.data_pos <= self.tokens.data@.len()
            &&& self.tokens.data@.skip(self.data_pos as int) == stream_bytes(
                self.tokens@,
                self.index as int,
            )
        })
    }

    /// The next token in order, or `None` once the stream is exhausted.
    pub fn next(&mut self) -> (r: Option<Token>)
        requires
            old(self).valid(),
        ensures
            final(self).valid(),
            final(self).stream() == old(self).stream(),
            r == if old(self).at() < old(self).stream().len() {
                Some(old(self).stream()[old(self).at()])
            } else {
                None::<Token>
            },
            final(self).at() == if old(self).at() < old(self).stream().len() {
                old(self).at() + 1
            } else {
                old(self).at()
            },
    {
        let ghost ts = self.tokens.tokens@;
        if self.index >= self.tokens.count {
            return None;
        }
        if self.index == 0 {
            self.index = 1;
            proof {
                assert(self.tokens.data@.skip(0) =~= self.tokens.data@);
            }
            return self.current_token;
        }
        let current = match self.current_token {
            Some(t) => t,
            None => {
                proof {
                    assert(false);
                }
                Token::new(0, 0, 0, 0, None, None)
            },
        };
        let ghost i = self.index as int;
        proof {
            assert(stream_bytes(ts, i) == compress_pair(ts[i - 1], ts[i]) + stream_bytes(
                ts,
                i + 1,
            ));
            assert forall|j: int|
                0 <= j < compress_pair(ts[i - 1], ts[i]).len() implies self.tokens.data@[
                self.data_pos + j] == #[trigger] compress_pair(ts[i - 1], ts[i])[j] by {
                assert(self.tokens.data@.skip(self.data_pos as int)[j] == self.tokens.data@[
                    self.data_pos + j]);
                assert((compress_pair(ts[i - 1], ts[i]) + stream_bytes(ts, i + 1))[j]
                    == compress_pair(ts[i - 1], ts[i])[j]);
            }
        }
        let (next, next_pos) = decompress_token_delta(
            self.tokens.data.as_slice(),
            self.data_pos,
            current,
            Ghost(ts[i]),
        );
        proof {
            let cp = compress_pair(ts[i - 1], ts[i]);
            assert forall|j: int|
                0 <= j < stream_bytes(ts, i + 1).len() implies self.tokens.data@.skip(
                next_pos as int,
            )[j] == #[trigger] stream_bytes(ts, i + 1)[j] by {
                assert(self.tokens.data@.skip(self.data_pos as int)[cp.len() + j]
                    == self.tokens.data@[self.data_pos + cp.len() + j]);
                assert((cp + stream_bytes(ts, i + 1))[cp.len() + j] == stream_bytes(ts, i + 1)[j]);
            }
            assert(self.tokens.data@.skip(next_pos as int) =~= stream_bytes(ts, i + 1));
        }
        self.current_token = Some(next);
        self.data_pos = next_pos;
        self.index = self.index + 1;
        Some(next)
    }

    /// How many tokens are still to come.
    pub fn len(&self) -> (r: usize)
        requires
            self.valid(),
        ensures
            r == self.stream().len() - self.at(),
    {
        self.tokens.count - self.index
    }
}

} // verus!
