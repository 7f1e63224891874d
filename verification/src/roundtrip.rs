//! The round-trip law of the mapping codec: a token stream of the shape
//! decoding produces re-encodes to a mapping string that decodes back to the
//! very same stream.

use vstd::prelude::*;

use crate::decode::{
    apply_segment, decode_mapping_from, initial_state, lemma_parse_segment_props,
    spec_decode_mapping, wrap32, DecodeState,
};
use crate::encode::{
    chunk_prev_token, chunk_state, default_chunk, encode_segment, encode_tokens_from, semis,
    spec_serialize, EncodeState,
};
use crate::error::Error;
use crate::token::{Token, INVALID_ID};
use crate::vlq::{
    is_sep, lemma_parse_one, lemma_vlq_digits_wire, parse_segment, vlq_encode_bytes, vlq_fold,
};

verus! {

/// The original-position state carried across tokens: source id, original
/// line and column, name id.
pub struct SrcState {
    pub src_id: u32,
    pub src_line: u32,
    pub src_col: u32,
    pub name_id: u32,
}

/// Decoding starts with every original-position register at zero.
pub open spec fn initial_src_state() -> SrcState {
    SrcState { src_id: 0, src_line: 0, src_col: 0, name_id: 0 }
}

/// A token the decoder could have produced against running state `st`: one
/// without a source repeats the running original position and carries no
/// name.
pub open spec fn token_consistent(st: SrcState, t: Token) -> bool {
    t.source_id == INVALID_ID ==> t.src_line == st.src_line && t.src_col == st.src_col
        && t.name_id == INVALID_ID
}

/// How one token moves the running original-position state.
pub open spec fn token_next_state(st: SrcState, t: Token) -> SrcState {
    if t.source_id == INVALID_ID {
        st
    } else {
        SrcState {
            src_id: t.source_id,
            src_line: t.src_line,
            src_col: t.src_col,
            name_id: if t.name_id == INVALID_ID {
                st.name_id
            } else {
                t.name_id
            },
        }
    }
}

/// Every token from `i` on is consistent with the state running from `st`.
pub open spec fn stream_consistent_from(ts: Seq<Token>, i: int, st: SrcState) -> bool
    decreases ts.len() - i,
{
    i >= ts.len() || (token_consistent(st, ts[i]) && stream_consistent_from(
        ts,
        i + 1,
        token_next_state(st, ts[i]),
    ))
}

/// Source and name ids stay inside their tables, and a name never comes
/// without a source.
pub open spec fn ids_bounded(ts: Seq<Token>, names_len: nat, sources_len: nat) -> bool {
    forall|j: int|
        0 <= j < ts.len() ==> {
            let t = #[trigger] ts[j];
            &&& (t.source_id == INVALID_ID || t.source_id < sources_len)
            &&& (t.name_id == INVALID_ID || t.name_id < names_len)
            &&& (t.name_id != INVALID_ID ==> t.source_id != INVALID_ID)
        }
}

/// No token exactly repeats its predecessor (the encoder elides repeats).
pub open spec fn no_adjacent_dups(ts: Seq<Token>) -> bool {
    forall|j: int| 1 <= j < ts.len() ==> #[trigger] ts[j] != ts[j - 1]
}

/// The encoder's previous-value registers agree with the decoder's running
/// state.
pub open spec fn states_agree(est: EncodeState, dst: DecodeState) -> bool {
    &&& est.dst_line == dst.dst_line
    &&& est.dst_col == dst.dst_col
    &&& est.src_line == dst.src_line
    &&& est.src_col == dst.src_col
    &&& est.source_id == dst.src_id
    &&& est.name_id == dst.name_id
}

/// The 1, 4 or 5 deltas one token's segment carries.
pub open spec fn seg_vals(st: EncodeState, t: Token) -> Seq<i64> {
    if t.source_id == INVALID_ID {
        seq![(t.dst_col - st.dst_col) as i64]
    } else {
        let base = seq![
            (t.dst_col - st.dst_col) as i64,
            (t.source_id - st.source_id) as i64,
            (t.src_line - st.src_line) as i64,
            (t.src_col - st.src_col) as i64,
        ];
        if t.name_id == INVALID_ID {
            base
        } else {
            base.push((t.name_id - st.name_id) as i64)
        }
    }
}

/// The decoder's state after it absorbs one token's segment.
pub open spec fn dec_state_after(dst: DecodeState, t: Token) -> DecodeState {
    if t.source_id == INVALID_ID {
        DecodeState { dst_col: t.dst_col, ..dst }
    } else if t.name_id == INVALID_ID {
        DecodeState {
            dst_col: t.dst_col,
            src_id: t.source_id,
            src_line: t.src_line,
            src_col: t.src_col,
            ..dst
        }
    } else {
        DecodeState {
            dst_line: dst.dst_line,
            dst_col: t.dst_col,
            src_id: t.source_id,
            src_line: t.src_line,
            src_col: t.src_col,
            name_id: t.name_id,
        }
    }
}

/// Applying the deltas an encoder emitted for `t` reproduces `t` itself and
/// leaves the two sides' states in agreement.
proof fn lemma_apply_encoded_segment(
    st: EncodeState,
    dst: DecodeState,
    t: Token,
    names_len: nat,
    sources_len: nat,
)
    requires
        states_agree(st, dst),
        st.dst_line == t.dst_line,
        names_len <= 0xffff_ffff,
        sources_len <= 0xffff_ffff,
        t.source_id == INVALID_ID || t.source_id < sources_len,
        t.name_id == INVALID_ID || t.name_id < names_len,
        t.name_id != INVALID_ID ==> t.source_id != INVALID_ID,
        t.source_id == INVALID_ID ==> t.src_line == dst.src_line && t.src_col == dst.src_col
            && t.name_id == INVALID_ID,
    ensures
        apply_segment(dst, seg_vals(st, t), names_len, sources_len) == Ok::<
            (DecodeState, Token),
            Error,
        >((dec_state_after(dst, t), t)),
        states_agree(encode_segment(st, t).1, dec_state_after(dst, t)),
{
    let m = 0x1_0000_0000nat;
    vstd::arithmetic::div_mod::lemma_small_mod(t.dst_col as nat, m);
    vstd::arithmetic::div_mod::lemma_small_mod(t.src_line as nat, m);
    vstd::arithmetic::div_mod::lemma_small_mod(t.src_col as nat, m);
    vstd::arithmetic::div_mod::lemma_small_mod(t.source_id as nat, m);
    vstd::arithmetic::div_mod::lemma_small_mod(t.name_id as nat, m);
    let vals = seg_vals(st, t);
    assert(dst.dst_col + vals[0] == t.dst_col);
    if t.source_id != INVALID_ID {
        assert(dst.src_id + vals[1] == t.source_id);
        assert(dst.src_line + vals[2] == t.src_line);
        assert(dst.src_col + vals[3] == t.src_col);
        if t.name_id != INVALID_ID {
            assert(dst.name_id + vals[4] == t.name_id);
        }
    }
}

/// Decoding a run of `k` line separators advances the generated line by `k`
/// and resets the generated column.
proof fn lemma_decode_semis(
    s: Seq<u8>,
    p: int,
    k: nat,
    dst: DecodeState,
    acc: Seq<Token>,
    names_len: nat,
    sources_len: nat,
)
    requires
        0 <= p,
        p + k <= s.len(),
        forall|j: int| p <= j < p + k ==> s[j] == 59,
        dst.dst_line + k <= 0xffff_ffff,
        k >= 1,
    ensures
        decode_mapping_from(s, p, dst, acc, names_len, sources_len) == decode_mapping_from(
            s,
            p + k,
            (DecodeState { dst_line: (dst.dst_line + k) as u32, dst_col: 0, ..dst }),
            acc,
            names_len,
            sources_len,
        ),
    decreases k,
{
    assert(s[p] == 59);
    vstd::arithmetic::div_mod::lemma_small_mod((dst.dst_line + 1) as nat, 0x1_0000_0000nat);
    let dst1 = DecodeState { dst_line: (dst.dst_line + 1) as u32, dst_col: 0, ..dst };
    assert(wrap32(dst.dst_line + 1) == dst1.dst_line);
    assert(decode_mapping_from(s, p, dst, acc, names_len, sources_len) == decode_mapping_from(
        s,
        p + 1,
        dst1,
        acc,
        names_len,
        sources_len,
    ));
    if k > 1 {
        lemma_decode_semis(s, p + 1, (k - 1) as nat, dst1, acc, names_len, sources_len);
        assert((DecodeState { dst_line: (dst1.dst_line + (k - 1)) as u32, dst_col: 0, ..dst1 })
            == (DecodeState { dst_line: (dst.dst_line + k) as u32, dst_col: 0, ..dst }));
    }
}

/// A non-empty encoding of later tokens always opens with a separator, as
/// long as something was already written (`prev` is set).
proof fn lemma_encoding_head(ts: Seq<Token>, i: int, end: int, st: EncodeState, prev: Option<Token>)
    requires
        prev is Some,
        end <= ts.len(),
        forall|j: int| i <= j < end ==> (#[trigger] ts[j]).dst_line >= st.dst_line,
    ensures
        encode_tokens_from(ts, i, end, st, prev).len() == 0 || is_sep(
            encode_tokens_from(ts, i, end, st, prev)[0],
        ),
    decreases end - i,
{
    if i >= end {
    } else if i < 0 || i >= ts.len() {
        lemma_encoding_head(ts, i + 1, end, st, prev);
    } else {
        let t = ts[i];
        if t.dst_line != st.dst_line {
            assert(t.dst_line > st.dst_line);
            assert(semis((t.dst_line - st.dst_line) as nat)[0] == 59);
        } else if prev == Some(t) {
            lemma_encoding_head(ts, i + 1, end, st, prev);
        } else {
            assert(encode_tokens_from(ts, i, end, st, prev)[0] == 44);
        }
    }
}

/// Bytes of a part located inside a whole that is itself laid out at `p`.
proof fn lemma_bytes_at(s: Seq<u8>, p: int, whole: Seq<u8>, off: int, part: Seq<u8>)
    requires
        0 <= p,
        0 <= off,
        off + part.len() <= whole.len(),
        p + whole.len() <= s.len(),
        forall|j: int| 0 <= j < whole.len() ==> s[p + j] == whole[j],
        forall|j: int| 0 <= j < part.len() ==> whole[off + j] == #[trigger] part[j],
    ensures
        forall|j: int| 0 <= j < part.len() ==> s[p + off + j] == #[trigger] part[j],
{
    assert forall|j: int| 0 <= j < part.len() implies s[p + off + j] == #[trigger] part[j] by {
        assert(s[p + (off + j)] == whole[off + j]);
    }
}

/// The scan of one encoded segment laid out at `p`, stopped by a separator
/// or the end of the input right after it, yields exactly the encoder's
/// deltas.
proof fn lemma_parse_segment_bytes(s: Seq<u8>, p: int, st: EncodeState, t: Token)
    requires
        0 <= p,
        p + encode_segment(st, t).0.len() <= s.len(),
        forall|j: int|
            0 <= j < encode_segment(st, t).0.len() ==> s[p + j] == encode_segment(st, t).0[j],
        p + encode_segment(st, t).0.len() == s.len() || is_sep(
            s[p + encode_segment(st, t).0.len()],
        ),
    ensures
        parse_segment(s, p, 0u64, 0nat, Seq::<i64>::empty()) == Ok::<(Seq<i64>, int), Error>(
            (seg_vals(st, t), p + encode_segment(st, t).0.len()),
        ),
{
    let bytes = encode_segment(st, t).0;
    let vals = seg_vals(st, t);
    let v1 = t.dst_col - st.dst_col;
    let b1 = vlq_encode_bytes(v1);
    if t.source_id == INVALID_ID {
        assert(bytes =~= b1);
        lemma_parse_one(s, p, v1, Seq::<i64>::empty());
        assert(Seq::<i64>::empty().push(v1 as i64) =~= vals);
        assert(parse_segment(s, p + bytes.len(), 0u64, 0nat, vals) == Ok::<
            (Seq<i64>, int),
            Error,
        >((vals, p + bytes.len())));
    } else {
        let v2 = t.source_id - st.source_id;
        let v3 = t.src_line - st.src_line;
        let v4 = t.src_col - st.src_col;
        let b2 = vlq_encode_bytes(v2);
        let b3 = vlq_encode_bytes(v3);
        let b4 = vlq_encode_bytes(v4);
        let src = b2 + b3 + b4;
        let p2 = p + b1.len();
        let p3 = p2 + b2.len();
        let p4 = p3 + b3.len();
        let p5 = p4 + b4.len();
        assert forall|j: int| 0 <= j < b2.len() implies src[0 + j] == #[trigger] b2[j] by {
            assert(((b2 + b3) + b4)[j] == (b2 + b3)[j]);
            assert((b2 + b3)[j] == b2[j]);
        }
        assert forall|j: int| 0 <= j < b3.len() implies src[b2.len() + j] == #[trigger] b3[j] by {
            assert(((b2 + b3) + b4)[b2.len() + j] == (b2 + b3)[b2.len() + j]);
            assert((b2 + b3)[b2.len() + j] == b3[j]);
        }
        assert forall|j: int| 0 <= j < b4.len() implies src[b2.len() + b3.len() + j]
            == #[trigger] b4[j] by {
            assert(((b2 + b3) + b4)[b2.len() + b3.len() + j] == b4[j]);
        }
        let head = b1 + src;
        assert forall|j: int| 0 <= j < b1.len() implies head[0 + j] == #[trigger] b1[j] by {
            assert((b1 + src)[j] == b1[j]);
        }
        assert forall|j: int| 0 <= j < src.len() implies head[b1.len() + j] == #[trigger] src[j] by {
            assert((b1 + src)[b1.len() + j] == src[j]);
        }
        if t.name_id == INVALID_ID {
            assert(bytes =~= head);
            assert(forall|j: int| 0 <= j < head.len() ==> s[p + j] == #[trigger] head[j]);
            lemma_bytes_at(s, p, head, 0, b1);
            lemma_bytes_at(s, p, head, b1.len() as int, src);
            lemma_bytes_at(s, p2, src, 0, b2);
            lemma_bytes_at(s, p2, src, b2.len() as int, b3);
            lemma_bytes_at(s, p2, src, b2.len() + b3.len() as int, b4);
            lemma_parse_one(s, p, v1, Seq::<i64>::empty());
            lemma_parse_one(s, p2, v2, Seq::<i64>::empty().push(v1 as i64));
            lemma_parse_one(s, p3, v3, Seq::<i64>::empty().push(v1 as i64).push(v2 as i64));
            lemma_parse_one(
                s,
                p4,
                v4,
                Seq::<i64>::empty().push(v1 as i64).push(v2 as i64).push(v3 as i64),
            );
            let done = Seq::<i64>::empty().push(v1 as i64).push(v2 as i64).push(v3 as i64).push(
                v4 as i64,
            );
            assert(done =~= vals);
            assert(p5 == p + bytes.len());
            assert(parse_segment(s, p5, 0u64, 0nat, done) == Ok::<(Seq<i64>, int), Error>(
                (done, p5),
            ));
        } else {
            let v5 = t.name_id - st.name_id;
            let b5 = vlq_encode_bytes(v5);
            let p6 = p5 + b5.len();
            assert(bytes =~= head + b5);
            assert forall|j: int| 0 <= j < head.len() implies bytes[0 + j] == #[trigger] head[j] by {
                assert((head + b5)[j] == head[j]);
            }
            assert forall|j: int| 0 <= j < b5.len() implies bytes[head.len() + j]
                == #[trigger] b5[j] by {
                assert((head + b5)[head.len() + j] == b5[j]);
            }
            lemma_bytes_at(s, p, bytes, 0, head);
            lemma_bytes_at(s, p, bytes, head.len() as int, b5);
            lemma_bytes_at(s, p, head, 0, b1);
            lemma_bytes_at(s, p, head, b1.len() as int, src);
            lemma_bytes_at(s, p2, src, 0, b2);
            lemma_bytes_at(s, p2, src, b2.len() as int, b3);
            lemma_bytes_at(s, p2, src, b2.len() + b3.len() as int, b4);
            lemma_parse_one(s, p, v1, Seq::<i64>::empty());
            lemma_parse_one(s, p2, v2, Seq::<i64>::empty().push(v1 as i64));
            lemma_parse_one(s, p3, v3, Seq::<i64>::empty().push(v1 as i64).push(v2 as i64));
            lemma_parse_one(
                s,
                p4,
                v4,
                Seq::<i64>::empty().push(v1 as i64).push(v2 as i64).push(v3 as i64),
            );
            lemma_parse_one(
                s,
                p5,
                v5,
                Seq::<i64>::empty().push(v1 as i64).push(v2 as i64).push(v3 as i64).push(
                    v4 as i64,
                ),
            );
            let done = Seq::<i64>::empty().push(v1 as i64).push(v2 as i64).push(v3 as i64).push(
                v4 as i64,
            ).push(v5 as i64);
            assert(done =~= vals);
            assert(p6 == p + bytes.len());
            assert(parse_segment(s, p6, 0u64, 0nat, done) == Ok::<(Seq<i64>, int), Error>(
                (done, p6),
            ));
        }
    }
}

/// The decoder's original-position registers.
pub open spec fn src_of(dst: DecodeState) -> SrcState {
    SrcState {
        src_id: dst.src_id,
        src_line: dst.src_line,
        src_col: dst.src_col,
        name_id: dst.name_id,
    }
}

/// The separator bytes written before one token's segment.
pub open spec fn step_lead(est: EncodeState, t: Token, prev: Option<Token>) -> Seq<u8> {
    if t.dst_line != est.dst_line {
        semis((t.dst_line - est.dst_line) as nat)
    } else if prev is Some {
        seq![44u8]
    } else {
        Seq::<u8>::empty()
    }
}

/// The encoder state the segment is taken against, after any line break.
pub open spec fn step_st1(est: EncodeState, t: Token) -> EncodeState {
    if t.dst_line != est.dst_line {
        EncodeState { dst_line: t.dst_line, dst_col: 0, ..est }
    } else {
        est
    }
}

/// The decoder state after any line break.
pub open spec fn step_dst1(dst: DecodeState, t: Token) -> DecodeState {
    if t.dst_line != dst.dst_line {
        DecodeState { dst_line: t.dst_line, dst_col: 0, ..dst }
    } else {
        dst
    }
}

/// Bytes of three parts laid out one after another at `p`.
proof fn lemma_split_three(s: Seq<u8>, p: int, a: Seq<u8>, b: Seq<u8>, c: Seq<u8>)
    requires
        0 <= p,
        p + a.len() + b.len() + c.len() <= s.len(),
        forall|j: int|
            0 <= j < a.len() + b.len() + c.len() ==> s[p + j] == #[trigger] (a + b + c)[j],
    ensures
        forall|j: int| 0 <= j < a.len() ==> s[p + j] == #[trigger] a[j],
        forall|j: int| 0 <= j < b.len() ==> s[p + a.len() + j] == #[trigger] b[j],
        forall|j: int| 0 <= j < c.len() ==> s[p + a.len() + b.len() + j] == #[trigger] c[j],
{
    assert forall|j: int| 0 <= j < a.len() implies s[p + j] == #[trigger] a[j] by {
        assert(s[p + j] == (a + b + c)[j]);
        assert(((a + b) + c)[j] == (a + b)[j]);
        assert((a + b)[j] == a[j]);
    }
    assert forall|j: int| 0 <= j < b.len() implies s[p + a.len() + j] == #[trigger] b[j] by {
        assert(s[p + (a.len() + j)] == (a + b + c)[a.len() + j]);
        assert(((a + b) + c)[a.len() + j] == (a + b)[a.len() + j]);
        assert((a + b)[a.len() + j] == b[j]);
    }
    assert forall|j: int| 0 <= j < c.len() implies s[p + a.len() + b.len() + j]
        == #[trigger] c[j] by {
        assert(s[p + (a.len() + b.len() + j)] == (a + b + c)[a.len() + b.len() + j]);
        assert(((a + b) + c)[a.len() + b.len() + j] == c[j]);
    }
}

/// Decoding the lead separators of one token: a run of line breaks, one
/// comma, or nothing, leaving the decoder at the segment start.
proof fn lemma_rt_lead(
    s: Seq<u8>,
    p: int,
    est: EncodeState,
    dst: DecodeState,
    t: Token,
    prev: Option<Token>,
    acc: Seq<Token>,
    names_len: nat,
    sources_len: nat,
)
    requires
        est.dst_line == dst.dst_line,
        t.dst_line >= est.dst_line,
        0 <= p,
        p + step_lead(est, t, prev).len() <= s.len(),
        forall|j: int|
            0 <= j < step_lead(est, t, prev).len() ==> s[p + j] == #[trigger] step_lead(
                est,
                t,
                prev,
            )[j],
    ensures
        decode_mapping_from(s, p, dst, acc, names_len, sources_len) == decode_mapping_from(
            s,
            p + step_lead(est, t, prev).len(),
            step_dst1(dst, t),
            acc,
            names_len,
            sources_len,
        ),
{
    let lead = step_lead(est, t, prev);
    if t.dst_line != est.dst_line {
        assert(t.dst_line > est.dst_line);
        let k = (t.dst_line - est.dst_line) as nat;
        assert forall|j: int| p <= j < p + k implies s[j] == 59 by {
            assert(s[p + (j - p)] == lead[j - p]);
        }
        lemma_decode_semis(s, p, k, dst, acc, names_len, sources_len);
        assert((DecodeState { dst_line: (dst.dst_line + k) as u32, dst_col: 0, ..dst })
            == step_dst1(dst, t));
    } else if prev is Some {
        assert(s[p + 0] == lead[0]);
        assert(s[p] == 44);
    }
}

/// Decoding one encoded segment: the deltas reproduce the token and leave the
/// two sides' states in agreement.
proof fn lemma_rt_seg(
    s: Seq<u8>,
    p1: int,
    st1: EncodeState,
    dst1: DecodeState,
    t: Token,
    acc: Seq<Token>,
    names_len: nat,
    sources_len: nat,
)
    requires
        names_len <= 0xffff_ffff,
        sources_len <= 0xffff_ffff,
        states_agree(st1, dst1),
        st1.dst_line == t.dst_line,
        token_consistent(src_of(dst1), t),
        t.source_id == INVALID_ID || t.source_id < sources_len,
        t.name_id == INVALID_ID || t.name_id < names_len,
        t.name_id != INVALID_ID ==> t.source_id != INVALID_ID,
        0 <= p1,
        p1 + encode_segment(st1, t).0.len() <= s.len(),
        forall|j: int|
            0 <= j < encode_segment(st1, t).0.len() ==> s[p1 + j] == #[trigger] encode_segment(
                st1,
                t,
            ).0[j],
        p1 + encode_segment(st1, t).0.len() == s.len() || is_sep(
            s[p1 + encode_segment(st1, t).0.len()],
        ),
    ensures
        decode_mapping_from(s, p1, dst1, acc, names_len, sources_len) == decode_mapping_from(
            s,
            p1 + encode_segment(st1, t).0.len(),
            dec_state_after(dst1, t),
            acc.push(t),
            names_len,
            sources_len,
        ),
        states_agree(encode_segment(st1, t).1, dec_state_after(dst1, t)),
{
    let seg = encode_segment(st1, t);
    lemma_parse_segment_bytes(s, p1, st1, t);
    let f0 = vlq_fold(t.dst_col - st1.dst_col) as nat;
    lemma_vlq_digits_wire(f0);
    let b1 = vlq_encode_bytes(t.dst_col - st1.dst_col);
    assert(seg.0[0] == b1[0]) by {
        if t.source_id == INVALID_ID {
        } else {
            let src = vlq_encode_bytes(t.source_id - st1.source_id) + vlq_encode_bytes(
                t.src_line - st1.src_line,
            ) + vlq_encode_bytes(t.src_col - st1.src_col);
            if t.name_id == INVALID_ID {
                assert((b1 + src)[0] == b1[0]);
            } else {
                assert(((b1 + src) + vlq_encode_bytes(t.name_id - st1.name_id))[0] == (b1
                    + src)[0]);
                assert((b1 + src)[0] == b1[0]);
            }
        }
    }
    assert(s[p1 + 0] == seg.0[0]);
    assert(!is_sep(s[p1]));
    lemma_apply_encoded_segment(st1, dst1, t, names_len, sources_len);
}

/// One token's worth of decoding: the lead separators and the segment laid
/// out at `p` move the decoder exactly one token forward, leaving both
/// sides' states in step and the rest of the encoding laid out right after.
#[verifier::rlimit(100)]
proof fn lemma_rt_step(
    ts: Seq<Token>,
    i: int,
    s: Seq<u8>,
    p: int,
    est: EncodeState,
    dst: DecodeState,
    acc: Seq<Token>,
    prev: Option<Token>,
    names_len: nat,
    sources_len: nat,
)
    requires
        0 <= i < ts.len(),
        ts.len() <= 0xffff_ffff,
        names_len <= 0xffff_ffff,
        sources_len <= 0xffff_ffff,
        0 <= p <= s.len(),
        s.len() - p == encode_tokens_from(ts, i, ts.len() as int, est, prev).len(),
        forall|j: int|
            0 <= j < s.len() - p ==> s[p + j] == encode_tokens_from(
                ts,
                i,
                ts.len() as int,
                est,
                prev,
            )[j],
        states_agree(est, dst),
        token_consistent(src_of(dst), ts[i]),
        ids_bounded(ts, names_len, sources_len),
        forall|j: int| i <= j < ts.len() ==> (#[trigger] ts[j]).dst_line >= est.dst_line,
        forall|j1: int, j2: int|
            i <= j1 < j2 < ts.len() ==> (#[trigger] ts[j1]).dst_line <= (#[trigger] ts[j2]).dst_line,
        prev != Some(ts[i]),
    ensures
        ({
            let t = ts[i];
            let st1 = step_st1(est, t);
            let seg = encode_segment(st1, t);
            let p2 = p + step_lead(est, t, prev).len() + seg.0.len();
            let dst2 = dec_state_after(step_dst1(dst, t), t);
            &&& decode_mapping_from(s, p, dst, acc, names_len, sources_len)
                == decode_mapping_from(s, p2, dst2, acc.push(t), names_len, sources_len)
            &&& states_agree(seg.1, dst2)
            &&& src_of(dst2) == token_next_state(src_of(dst), t)
            &&& seg.1.dst_line == t.dst_line
            &&& p2 <= s.len()
            &&& s.len() - p2 == encode_tokens_from(ts, i + 1, ts.len() as int, seg.1, Some(t)).len()
            &&& forall|j: int|
                0 <= j < s.len() - p2 ==> #[trigger] s[p2 + j] == encode_tokens_from(
                    ts,
                    i + 1,
                    ts.len() as int,
                    seg.1,
                    Some(t),
                )[j]
        }),
{
    let end = ts.len() as int;
    let e = encode_tokens_from(ts, i, end, est, prev);
    let t = ts[i];
    let lead = step_lead(est, t, prev);
    let st1 = step_st1(est, t);
    let seg = encode_segment(st1, t);
    let rest = encode_tokens_from(ts, i + 1, end, seg.1, Some(t));
    assert(e == lead + seg.0 + rest) by {
        if t.dst_line != est.dst_line {
        } else {
            assert(prev != Some(t));
            if prev is Some {
            } else {
                assert(Seq::<u8>::empty() + seg.0 =~= seg.0);
                assert((Seq::<u8>::empty() + seg.0) + rest =~= seg.0 + rest);
            }
        }
    }
    let p1 = p + lead.len();
    let p2 = p1 + seg.0.len();
    lemma_split_three(s, p, lead, seg.0, rest);
    assert(p2 + rest.len() == s.len());
    lemma_rt_lead(s, p, est, dst, t, prev, acc, names_len, sources_len);
    let dst1 = step_dst1(dst, t);
    assert(states_agree(st1, dst1));
    assert(forall|j: int| i + 1 <= j < ts.len() ==> (#[trigger] ts[j]).dst_line >= seg.1.dst_line);
    lemma_encoding_head(ts, i + 1, end, seg.1, Some(t));
    assert(p2 == s.len() || is_sep(s[p2]));
    lemma_rt_seg(s, p1, st1, dst1, t, acc, names_len, sources_len);
    assert forall|j: int| 0 <= j < s.len() - p2 implies #[trigger] s[p2 + j] == rest[j] by {
        assert(s[p + (lead.len() + seg.0.len() + j)] == rest[j]);
    }
}

/// Decoding the encoding of `ts[i..]`, laid out at `p` and reaching the end
/// of the input, appends exactly those tokens.
proof fn lemma_rt_from(
    ts: Seq<Token>,
    i: int,
    s: Seq<u8>,
    p: int,
    est: EncodeState,
    dst: DecodeState,
    acc: Seq<Token>,
    prev: Option<Token>,
    names_len: nat,
    sources_len: nat,
)
    requires
        0 <= i <= ts.len(),
        ts.len() <= 0xffff_ffff,
        names_len <= 0xffff_ffff,
        sources_len <= 0xffff_ffff,
        0 <= p <= s.len(),
        s.len() - p == encode_tokens_from(ts, i, ts.len() as int, est, prev).len(),
        forall|j: int|
            0 <= j < s.len() - p ==> s[p + j] == encode_tokens_from(
                ts,
                i,
                ts.len() as int,
                est,
                prev,
            )[j],
        states_agree(est, dst),
        stream_consistent_from(ts, i, src_of(dst)),
        ids_bounded(ts, names_len, sources_len),
        forall|j: int| i <= j < ts.len() ==> (#[trigger] ts[j]).dst_line >= est.dst_line,
        forall|j1: int, j2: int|
            i <= j1 < j2 < ts.len() ==> (#[trigger] ts[j1]).dst_line <= (#[trigger] ts[j2]).dst_line,
        forall|j: int| i < j < ts.len() ==> #[trigger] ts[j] != ts[j - 1],
        i < ts.len() ==> prev != Some(ts[i]),
    ensures
        decode_mapping_from(s, p, dst, acc, names_len, sources_len) == Ok::<Seq<Token>, Error>(
            acc + ts.skip(i),
        ),
    decreases ts.len() - i,
{
    let end = ts.len() as int;
    if i == end {
        assert(encode_tokens_from(ts, i, end, est, prev).len() == 0);
        assert(p == s.len());
        assert(acc + ts.skip(i) =~= acc);
    } else {
        let t = ts[i];
        assert(token_consistent(src_of(dst), t));
        lemma_rt_step(ts, i, s, p, est, dst, acc, prev, names_len, sources_len);
        let st1 = step_st1(est, t);
        let seg = encode_segment(st1, t);
        let p2 = p + step_lead(est, t, prev).len() + seg.0.len();
        let dst2 = dec_state_after(step_dst1(dst, t), t);
        lemma_rt_from(
            ts,
            i + 1,
            s,
            p2,
            seg.1,
            dst2,
            acc.push(t),
            Some(t),
            names_len,
            sources_len,
        );
        assert(acc.push(t) + ts.skip(i + 1) =~= acc + ts.skip(i));
    }
}

/// A successfully applied segment yields a token consistent with the running
/// state, moves the state the way the token says, and keeps ids in range.
proof fn lemma_apply_consistent(st: DecodeState, vals: Seq<i64>, names_len: nat, sources_len: nat)
    requires
        names_len <= 0xffff_ffff,
        sources_len <= 0xffff_ffff,
    ensures
        apply_segment(st, vals, names_len, sources_len) matches Ok(p) ==> {
            &&& token_consistent(src_of(st), p.1)
            &&& src_of(p.0) == token_next_state(src_of(st), p.1)
            &&& p.1.dst_line == st.dst_line
            &&& p.0.dst_line == st.dst_line
            &&& (p.1.source_id == INVALID_ID || p.1.source_id < sources_len)
            &&& (p.1.name_id == INVALID_ID || p.1.name_id < names_len)
            &&& (p.1.name_id != INVALID_ID ==> p.1.source_id != INVALID_ID)
        },
{
    let n = vals.len();
    let new_dst_col = st.dst_col + vals[0];
    if new_dst_col >= 0 && n != 1 && (n == 4 || n == 5) {
        let new_src_id = st.src_id + vals[1];
        if 0 <= new_src_id < sources_len {
            vstd::arithmetic::div_mod::lemma_small_mod(new_src_id as nat, 0x1_0000_0000nat);
            let new_src_line = st.src_line + vals[2];
            let new_src_col = st.src_col + vals[3];
            if new_src_line >= 0 && new_src_col >= 0 && n == 5 {
                let new_name_id = st.name_id + vals[4];
                if 0 <= new_name_id < names_len {
                    vstd::arithmetic::div_mod::lemma_small_mod(
                        new_name_id as nat,
                        0x1_0000_0000nat,
                    );
                }
            }
        }
    }
}

/// Whatever a mapping suffix decodes to extends the gathered tokens with a
/// stream that is consistent with the decoder's state: lines never step
/// back, ids stay inside their tables, sourceless tokens repeat the running
/// original position, and each token costs at least one byte.
proof fn lemma_decode_from_consistent(
    s: Seq<u8>,
    i: int,
    st: DecodeState,
    acc: Seq<Token>,
    names_len: nat,
    sources_len: nat,
)
    requires
        0 <= i <= s.len(),
        names_len <= 0xffff_ffff,
        sources_len <= 0xffff_ffff,
        st.dst_line + (s.len() - i) <= 0xffff_ffff,
    ensures
        decode_mapping_from(s, i, st, acc, names_len, sources_len) matches Ok(ts) ==> {
            &&& acc.len() <= ts.len()
            &&& ts.take(acc.len() as int) == acc
            &&& ts.len() - acc.len() <= s.len() - i
            &&& stream_consistent_from(ts, acc.len() as int, src_of(st))
            &&& forall|j: int|
                acc.len() <= j < ts.len() ==> (#[trigger] ts[j]).dst_line >= st.dst_line
            &&& forall|j1: int, j2: int|
                acc.len() <= j1 < j2 < ts.len() ==> (#[trigger] ts[j1]).dst_line
                    <= (#[trigger] ts[j2]).dst_line
            &&& forall|j: int|
                acc.len() <= j < ts.len() ==> {
                    let t = #[trigger] ts[j];
                    &&& (t.source_id == INVALID_ID || t.source_id < sources_len)
                    &&& (t.name_id == INVALID_ID || t.name_id < names_len)
                    &&& (t.name_id != INVALID_ID ==> t.source_id != INVALID_ID)
                }
        },
    decreases s.len() - i,
{
    if i >= s.len() {
        assert(decode_mapping_from(s, i, st, acc, names_len, sources_len) == Ok::<
            Seq<Token>,
            Error,
        >(acc));
        assert(acc.take(acc.len() as int) =~= acc);
    } else if s[i] == 44 {
        lemma_decode_from_consistent(s, i + 1, st, acc, names_len, sources_len);
    } else if s[i] == 59 {
        vstd::arithmetic::div_mod::lemma_small_mod((st.dst_line + 1) as nat, 0x1_0000_0000nat);
        let st2 = DecodeState { dst_line: wrap32(st.dst_line + 1), dst_col: 0, ..st };
        assert(st2.dst_line == st.dst_line + 1);
        lemma_decode_from_consistent(s, i + 1, st2, acc, names_len, sources_len);
        assert(src_of(st2) == src_of(st));
    } else {
        lemma_parse_segment_props(s, i, 0u64, 0nat, Seq::<i64>::empty());
        match parse_segment(s, i, 0u64, 0nat, Seq::<i64>::empty()) {
            Err(_) => {},
            Ok(p) => {
                lemma_apply_consistent(st, p.0, names_len, sources_len);
                match apply_segment(st, p.0, names_len, sources_len) {
                    Err(_) => {},
                    Ok(next) => {
                        let st2 = next.0;
                        let tok = next.1;
                        lemma_decode_from_consistent(
                            s,
                            p.1,
                            st2,
                            acc.push(tok),
                            names_len,
                            sources_len,
                        );
                        match decode_mapping_from(
                            s,
                            p.1,
                            st2,
                            acc.push(tok),
                            names_len,
                            sources_len,
                        ) {
                            Err(_) => {},
                            Ok(ts) => {
                                assert(ts.take(acc.len() as int + 1) == acc.push(tok));
                                assert forall|j: int| 0 <= j < acc.len() implies ts[j] == acc[j] by {
                                    assert(ts.take(acc.len() as int + 1)[j] == acc.push(tok)[j]);
                                }
                                assert(ts.take(acc.len() as int) =~= acc);
                                assert(ts[acc.len() as int] == tok) by {
                                    assert(ts.take(acc.len() as int + 1)[acc.len() as int] == acc.push(
                                        tok,
                                    )[acc.len() as int]);
                                }
                                assert(stream_consistent_from(ts, acc.len() as int, src_of(st)));
                            },
                        }
                    },
                }
            },
        }
    }
}

/// What a whole mapping decodes to has exactly the shape the round-trip law
/// asks for: lines never step back, ids stay inside their tables, and every
/// sourceless token repeats the running original position.
pub proof fn lemma_decode_output_consistent(s: Seq<u8>, names_len: nat, sources_len: nat)
    requires
        s.len() <= 0xffff_ffff,
        names_len <= 0xffff_ffff,
        sources_len <= 0xffff_ffff,
    ensures
        spec_decode_mapping(s, names_len, sources_len) matches Ok(ts) ==> {
            &&& ts.len() <= s.len()
            &&& crate::sourcemap::lines_nondecreasing(ts)
            &&& stream_consistent_from(ts, 0, initial_src_state())
            &&& ids_bounded(ts, names_len, sources_len)
        },
{
    lemma_decode_from_consistent(
        s,
        0,
        initial_state(),
        Seq::<Token>::empty(),
        names_len,
        sources_len,
    );
}

/// The round trip as the codec's callers see it: whatever a mapping string
/// decodes to, re-encoding those tokens and decoding again gives the very
/// same tokens, as long as no token exactly repeats its neighbour (those the
/// encoder elides).
pub proof fn lemma_decode_encode_decode(s: Seq<u8>, names_len: nat, sources_len: nat)
    requires
        s.len() <= 0xffff_ffff,
        names_len <= 0xffff_ffff,
        sources_len <= 0xffff_ffff,
        spec_decode_mapping(s, names_len, sources_len) matches Ok(ts) ==> no_adjacent_dups(ts),
    ensures
        spec_decode_mapping(s, names_len, sources_len) matches Ok(ts) ==> spec_decode_mapping(
            spec_serialize(ts, None),
            names_len,
            sources_len,
        ) == Ok::<Seq<Token>, Error>(ts),
{
    lemma_decode_output_consistent(s, names_len, sources_len);
    match spec_decode_mapping(s, names_len, sources_len) {
        Ok(ts) => {
            lemma_mapping_round_trip(ts, names_len, sources_len);
        },
        Err(_) => {},
    }
}

/// Round trip of the token codec: a token stream of the shape decoding
/// produces — generated lines never decreasing, ids inside their tables, a
/// sourceless token repeating the running original position — and without an
/// exactly-repeated neighbour token (re-encoding elides those) re-encodes to
/// a mapping that decodes to the very same stream.
pub proof fn lemma_mapping_round_trip(ts: Seq<Token>, names_len: nat, sources_len: nat)
    requires
        ts.len() <= 0xffff_ffff,
        names_len <= 0xffff_ffff,
        sources_len <= 0xffff_ffff,
        crate::sourcemap::lines_nondecreasing(ts),
        stream_consistent_from(ts, 0, initial_src_state()),
        ids_bounded(ts, names_len, sources_len),
        no_adjacent_dups(ts),
    ensures
        spec_decode_mapping(spec_serialize(ts, None), names_len, sources_len) == Ok::<
            Seq<Token>,
            Error,
        >(ts),
{
    let s = spec_serialize(ts, None);
    let dchunk = default_chunk(ts);
    vstd::arithmetic::div_mod::lemma_small_mod(ts.len(), 0x1_0000_0000nat);
    assert(dchunk.end == ts.len());
    assert(chunk_prev_token(ts, dchunk) is None);
    let est0 = chunk_state(dchunk);
    assert(s == encode_tokens_from(ts, 0, ts.len() as int, est0, None::<Token>));
    let dst0 = initial_state();
    assert(states_agree(est0, dst0));
    assert(src_of(dst0) == initial_src_state());
    lemma_rt_from(
        ts,
        0,
        s,
        0,
        est0,
        dst0,
        Seq::<Token>::empty(),
        None::<Token>,
        names_len,
        sources_len,
    );
    assert(Seq::<Token>::empty() + ts.skip(0) =~= ts);
}

} // verus!
