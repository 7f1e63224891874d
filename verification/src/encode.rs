//! Encoding of a token stream back into the `mappings` wire format.
//!
//! Chunks are encoded independently: each one resumes from the previous-value
//! snapshot stored in its [`TokenChunk`], which is what makes segmented
//! re-encoding possible without re-reading earlier tokens.

use vstd::prelude::*;
use vstd::string::StringExecFns;

use crate::decode::JSONSourceMap;
use crate::outside::{ascii_to_string, escape_json_string, escape_of};
use crate::sourcemap::SourceMap;
use crate::token::{Token, TokenChunk, Tokens, INVALID_ID};
use crate::vlq::{lemma_vlq_digits_wire, vlq_encode, vlq_encode_bytes, vlq_fold};

verus! {

/// The running "previous" values the encoder takes deltas against.
pub struct EncodeState {
    pub dst_line: u32,
    pub dst_col: u32,
    pub src_line: u32,
    pub src_col: u32,
    pub name_id: u32,
    pub source_id: u32,
}

/// The snapshot a chunk starts from.
pub open spec fn chunk_state(chunk: TokenChunk) -> EncodeState {
    EncodeState {
        dst_line: chunk.prev_dst_line,
        dst_col: chunk.prev_dst_col,
        src_line: chunk.prev_src_line,
        src_col: chunk.prev_src_col,
        name_id: chunk.prev_name_id,
        source_id: chunk.prev_source_id,
    }
}

/// `k` line-break separators.
pub open spec fn semis(k: nat) -> Seq<u8> {
    Seq::new(k, |i: int| 59u8)
}

/// One token's VLQ deltas: always the generated column; source id, original
/// line and column when a source is present; the name id when a name is too.
/// Fields that are absent do not move the running state.
pub open spec fn encode_segment(st: EncodeState, t: Token) -> (Seq<u8>, EncodeState) {
    let col_bytes = vlq_encode_bytes(t.dst_col - st.dst_col);
    if t.source_id == INVALID_ID {
        (col_bytes, EncodeState { dst_col: t.dst_col, ..st })
    } else {
        let src_bytes = vlq_encode_bytes(t.source_id - st.source_id) + vlq_encode_bytes(
            t.src_line - st.src_line,
        ) + vlq_encode_bytes(t.src_col - st.src_col);
        if t.name_id == INVALID_ID {
            (
                col_bytes + src_bytes,
                EncodeState {
                    dst_col: t.dst_col,
                    source_id: t.source_id,
                    src_line: t.src_line,
                    src_col: t.src_col,
                    ..st
                },
            )
        } else {
            (
                col_bytes + src_bytes + vlq_encode_bytes(t.name_id - st.name_id),
                EncodeState {
                    dst_line: st.dst_line,
                    dst_col: t.dst_col,
                    source_id: t.source_id,
                    src_line: t.src_line,
                    src_col: t.src_col,
                    name_id: t.name_id,
                },
            )
        }
    }
}

/// The encoding of the tokens with indices in `[i, end)`: a run of `;` when
/// the generated line advances (resetting the column state), nothing for a
/// token equal to the one just written, a `,` between neighbours on one line.
/// Indices outside the stream contribute nothing.
pub open spec fn encode_tokens_from(
    ts: Seq<Token>,
    i: int,
    end: int,
    st: EncodeState,
    prev: Option<Token>,
) -> Seq<u8>
    decreases end - i,
{
    if i >= end {
        Seq::<u8>::empty()
    } else if i < 0 || i >= ts.len() {
        encode_tokens_from(ts, i + 1, end, st, prev)
    } else {
        let t = ts[i];
        if t.dst_line != st.dst_line {
            let st1 = EncodeState { dst_line: t.dst_line, dst_col: 0, ..st };
            let seg = encode_segment(st1, t);
            semis((t.dst_line - st.dst_line) as nat) + seg.0 + encode_tokens_from(
                ts,
                i + 1,
                end,
                seg.1,
                Some(t),
            )
        } else if prev == Some(t) {
            encode_tokens_from(ts, i + 1, end, st, prev)
        } else {
            let comma: Seq<u8> = if prev is Some {
                seq![44u8]
            } else {
                Seq::<u8>::empty()
            };
            let seg = encode_segment(st, t);
            comma + seg.0 + encode_tokens_from(ts, i + 1, end, seg.1, Some(t))
        }
    }
}

/// The token just before a chunk, when there is one.
pub open spec fn chunk_prev_token(ts: Seq<Token>, chunk: TokenChunk) -> Option<Token> {
    if chunk.start == 0 || chunk.start - 1 >= ts.len() {
        None
    } else {
        Some(ts[chunk.start - 1])
    }
}

/// One chunk's whole encoding.
pub open spec fn encode_chunk(ts: Seq<Token>, chunk: TokenChunk) -> Seq<u8> {
    encode_tokens_from(
        ts,
        chunk.start as int,
        chunk.end as int,
        chunk_state(chunk),
        chunk_prev_token(ts, chunk),
    )
}

/// Generated lines never step backwards across a chunk, starting from its
/// snapshot; the encoder's line separator count relies on it.
pub open spec fn chunk_lines_ok(ts: Seq<Token>, chunk: TokenChunk) -> bool {
    &&& forall|j: int|
        chunk.start <= j < chunk.end && 0 <= j < ts.len() ==> (#[trigger] ts[j]).dst_line
            >= chunk.prev_dst_line
    &&& forall|i: int, j: int|
        chunk.start <= i < j < chunk.end && 0 <= i && j < ts.len() ==> (#[trigger] ts[i]).dst_line
            <= (#[trigger] ts[j]).dst_line
}

/// All of a chunk list from index `k` on, encoded in order.
pub open spec fn encode_chunks_from(ts: Seq<Token>, chunks: Seq<TokenChunk>, k: int) -> Seq<u8>
    decreases chunks.len() - k,
{
    if k < 0 || k >= chunks.len() {
        Seq::<u8>::empty()
    } else {
        encode_chunk(ts, chunks[k]) + encode_chunks_from(ts, chunks, k + 1)
    }
}

/// The single all-covering chunk used when a map carries no chunk list.
pub open spec fn default_chunk(ts: Seq<Token>) -> TokenChunk {
    TokenChunk {
        start: 0,
        end: crate::decode::wrap32(ts.len() as int),
        prev_dst_line: 0,
        prev_dst_col: 0,
        prev_src_line: 0,
        prev_src_col: 0,
        prev_name_id: 0,
        prev_source_id: 0,
    }
}

/// The whole `mappings` byte string of a token stream with an optional chunk
/// list.
pub open spec fn spec_serialize(ts: Seq<Token>, chunks: Option<Seq<TokenChunk>>) -> Seq<u8> {
    match chunks {
        Some(cs) => encode_chunks_from(ts, cs, 0),
        None => encode_chunk(ts, default_chunk(ts)),
    }
}

/// Every chunk respects line monotonicity, so encoding cannot fail.
pub open spec fn serializable(ts: Seq<Token>, chunks: Option<Seq<TokenChunk>>) -> bool {
    match chunks {
        Some(cs) => forall|k: int| 0 <= k < cs.len() ==> chunk_lines_ok(ts, #[trigger] cs[k]),
        None => chunk_lines_ok(ts, default_chunk(ts)),
    }
}

/// Append the VLQ encoding of the difference `a - b`.
pub fn encode_vlq_diff(out: &mut Vec<u8>, a: u32, b: u32)
    ensures
        final(out)@ =~= old(out)@ + vlq_encode_bytes(a - b),
{
    vlq_encode(out, a as i64 - b as i64);
}

/// Append one chunk's encoding, resuming from the chunk's snapshot.
#[verifier::rlimit(100)]
pub fn serialize_mappings(tokens: &Tokens, token_chunk: &TokenChunk, output: &mut Vec<u8>)
    requires
        tokens.wf(),
        chunk_lines_ok(tokens@, *token_chunk),
    ensures
        final(output)@ =~= old(output)@ + encode_chunk(tokens@, *token_chunk),
{
    let ghost ts = tokens@;
    let start = token_chunk.start;
    let end = token_chunk.end;
    let mut prev_dst_line = token_chunk.prev_dst_line;
    let mut prev_dst_col = token_chunk.prev_dst_col;
    let mut prev_src_line = token_chunk.prev_src_line;
    let mut prev_src_col = token_chunk.prev_src_col;
    let mut prev_name_id = token_chunk.prev_name_id;
    let mut prev_source_id = token_chunk.prev_source_id;

    let mut prev_token: Option<Token> = if start == 0 {
        None
    } else {
        tokens.get(start as usize - 1)
    };
    proof {
        assert(prev_token == chunk_prev_token(ts, *token_chunk));
    }

    let n = tokens.len();
    let mut i: usize = start as usize;
    while i < end as usize
        invariant
            tokens.wf(),
            ts == tokens@,
            n == ts.len(),
            chunk_lines_ok(ts, *token_chunk),
            start == token_chunk.start,
            end == token_chunk.end,
            token_chunk.start <= i,
            forall|j: int|
                i <= j < token_chunk.end && 0 <= j < ts.len() ==> (#[trigger] ts[j]).dst_line
                    >= prev_dst_line,
            old(output)@ + encode_chunk(ts, *token_chunk) =~= output@ + encode_tokens_from(
                ts,
                i as int,
                token_chunk.end as int,
                (EncodeState {
                    dst_line: prev_dst_line,
                    dst_col: prev_dst_col,
                    src_line: prev_src_line,
                    src_col: prev_src_col,
                    name_id: prev_name_id,
                    source_id: prev_source_id,
                }),
                prev_token,
            ),
        decreases end - i,
    {
        let ghost st_in = EncodeState {
            dst_line: prev_dst_line,
            dst_col: prev_dst_col,
            src_line: prev_src_line,
            src_col: prev_src_col,
            name_id: prev_name_id,
            source_id: prev_source_id,
        };
        let ghost prev_in = prev_token;
        let ghost out0 = output@;
        let token = match tokens.get(i) {
            Some(t) => t,
            None => {
                i = i + 1;
                continue ;
            },
        };
        proof {
            assert(ts[i as int].dst_line >= prev_dst_line);
        }
        let num_line_breaks = token.dst_line - prev_dst_line;
        let mut skip = false;
        if num_line_breaks != 0 {
            let mut k = num_line_breaks;
            while k > 0
                invariant
                    output@ =~= out0 + semis((num_line_breaks - k) as nat),
                    k <= num_line_breaks,
                decreases k,
            {
                output.push(59u8);
                proof {
                    assert(output@ =~= out0 + semis((num_line_breaks - k + 1) as nat));
                }
                k = k - 1;
            }
            prev_dst_col = 0;
            prev_dst_line = prev_dst_line + num_line_breaks;
        } else {
            match prev_token {
                Some(p) => {
                    if p == token {
                        skip = true;
                    } else {
                        output.push(44u8);
                    }
                },
                None => {},
            }
        }
        if !skip {
            let ghost lead = output@.skip(out0.len() as int);
            let ghost st1 = EncodeState {
                dst_line: prev_dst_line,
                dst_col: prev_dst_col,
                src_line: prev_src_line,
                src_col: prev_src_col,
                name_id: prev_name_id,
                source_id: prev_source_id,
            };
            let ghost out1 = output@;
            encode_vlq_diff(output, token.dst_col, prev_dst_col);
            prev_dst_col = token.dst_col;
            match token.get_source_id() {
                Some(source_id) => {
                    encode_vlq_diff(output, source_id, prev_source_id);
                    prev_source_id = source_id;
                    encode_vlq_diff(output, token.src_line, prev_src_line);
                    prev_src_line = token.src_line;
                    encode_vlq_diff(output, token.src_col, prev_src_col);
                    prev_src_col = token.src_col;
                    match token.get_name_id() {
                        Some(name_id) => {
                            encode_vlq_diff(output, name_id, prev_name_id);
                            prev_name_id = name_id;
                        },
                        None => {},
                    }
                },
                None => {},
            }
            prev_token = Some(token);
            proof {
                let seg = encode_segment(st1, token);
                assert(output@ =~= out1 + seg.0);
                assert(out1 =~= out0 + lead);
                let st_out = EncodeState {
                    dst_line: prev_dst_line,
                    dst_col: prev_dst_col,
                    src_line: prev_src_line,
                    src_col: prev_src_col,
                    name_id: prev_name_id,
                    source_id: prev_source_id,
                };
                assert(st_out == seg.1);
                if num_line_breaks != 0 {
                    assert(lead =~= semis((token.dst_line - st_in.dst_line) as nat));
                    assert(encode_tokens_from(ts, i as int, token_chunk.end as int, st_in, prev_in)
                        =~= lead + seg.0 + encode_tokens_from(
                        ts,
                        i + 1,
                        token_chunk.end as int,
                        seg.1,
                        Some(token),
                    ));
                } else {
                    assert(encode_tokens_from(ts, i as int, token_chunk.end as int, st_in, prev_in)
                        =~= lead + seg.0 + encode_tokens_from(
                        ts,
                        i + 1,
                        token_chunk.end as int,
                        seg.1,
                        Some(token),
                    ));
                }
                assert(output@ + encode_tokens_from(
                    ts,
                    i + 1,
                    token_chunk.end as int,
                    seg.1,
                    Some(token),
                ) =~= out0 + encode_tokens_from(ts, i as int, token_chunk.end as int, st_in, prev_in));
            }
        }
        i = i + 1;
    }
    proof {
        assert(encode_tokens_from(
            ts,
            i as int,
            token_chunk.end as int,
            (EncodeState {
                dst_line: prev_dst_line,
                dst_col: prev_dst_col,
                src_line: prev_src_line,
                src_col: prev_src_col,
                name_id: prev_name_id,
                source_id: prev_source_id,
            }),
            prev_token,
        ) =~= Seq::<u8>::empty());
        assert(output@ =~= old(output)@ + encode_chunk(ts, *token_chunk));
    }
}

/// The `mappings` bytes of a whole map: its chunks in order, or one chunk
/// covering every token when it has no chunk list.
pub fn serialize_sourcemap_mappings(sm: &SourceMap) -> (r: Vec<u8>)
    requires
        sm.wf(),
        serializable(sm.tokens@, sm.spec_chunks()),
    ensures
        r@ =~= spec_serialize(sm.tokens@, sm.spec_chunks()),
{
    let mut output: Vec<u8> = Vec::new();
    match &sm.token_chunks {
        Some(chunks) => {
            let m = chunks.len();
            let mut k: usize = 0;
            while k < m
                invariant
                    sm.wf(),
                    serializable(sm.tokens@, sm.spec_chunks()),
                    sm.token_chunks matches Some(cs) && cs@ == chunks@,
                    m == chunks@.len(),
                    k <= m,
                    output@ + encode_chunks_from(sm.tokens@, chunks@, k as int) =~= spec_serialize(
                        sm.tokens@,
                        sm.spec_chunks(),
                    ),
                decreases m - k,
            {
                serialize_mappings(&sm.tokens, &chunks[k], &mut output);
                k = k + 1;
            }
        },
        None => {
            let len64: u64 = sm.tokens.len() as u64;
            let end: u32 = (len64 % 0x1_0000_0000u64) as u32;
            let chunk = TokenChunk::new(0, end, 0, 0, 0, 0, 0, 0);
            proof {
                assert(chunk == default_chunk(sm.tokens@));
            }
            serialize_mappings(&sm.tokens, &chunk, &mut output);
        },
    }
    output
}

/// Every byte of a sequence stays in the ASCII range.
pub open spec fn all_ascii(s: Seq<u8>) -> bool {
    forall|j: int| 0 <= j < s.len() ==> s[j] < 128
}

proof fn lemma_concat_ascii(a: Seq<u8>, b: Seq<u8>)
    requires
        all_ascii(a),
        all_ascii(b),
    ensures
        all_ascii(a + b),
{
    assert forall|j: int| 0 <= j < (a + b).len() implies (a + b)[j] < 128 by {
        if j < a.len() {
            assert((a + b)[j] == a[j]);
        } else {
            assert((a + b)[j] == b[j - a.len()]);
        }
    }
}

proof fn lemma_vlq_ascii(num: int)
    ensures
        all_ascii(vlq_encode_bytes(num)),
{
    lemma_vlq_digits_wire(vlq_fold(num) as nat);
}

proof fn lemma_segment_ascii(st: EncodeState, t: Token)
    ensures
        all_ascii(encode_segment(st, t).0),
{
    let b1 = vlq_encode_bytes(t.dst_col - st.dst_col);
    lemma_vlq_ascii(t.dst_col - st.dst_col);
    if t.source_id != INVALID_ID {
        let b2 = vlq_encode_bytes(t.source_id - st.source_id);
        let b3 = vlq_encode_bytes(t.src_line - st.src_line);
        let b4 = vlq_encode_bytes(t.src_col - st.src_col);
        lemma_vlq_ascii(t.source_id - st.source_id);
        lemma_vlq_ascii(t.src_line - st.src_line);
        lemma_vlq_ascii(t.src_col - st.src_col);
        lemma_concat_ascii(b2, b3);
        lemma_concat_ascii(b2 + b3, b4);
        lemma_concat_ascii(b1, b2 + b3 + b4);
        if t.name_id != INVALID_ID {
            lemma_vlq_ascii(t.name_id - st.name_id);
            lemma_concat_ascii(b1 + (b2 + b3 + b4), vlq_encode_bytes(t.name_id - st.name_id));
        }
    }
}

proof fn lemma_tokens_ascii(ts: Seq<Token>, i: int, end: int, st: EncodeState, prev: Option<Token>)
    ensures
        all_ascii(encode_tokens_from(ts, i, end, st, prev)),
    decreases end - i,
{
    if i >= end {
    } else if i < 0 || i >= ts.len() {
        lemma_tokens_ascii(ts, i + 1, end, st, prev);
    } else {
        let t = ts[i];
        if t.dst_line != st.dst_line {
            let st1 = EncodeState { dst_line: t.dst_line, dst_col: 0, ..st };
            let seg = encode_segment(st1, t);
            lemma_segment_ascii(st1, t);
            lemma_tokens_ascii(ts, i + 1, end, seg.1, Some(t));
            assert(all_ascii(semis((t.dst_line - st.dst_line) as nat)));
            lemma_concat_ascii(semis((t.dst_line - st.dst_line) as nat), seg.0);
            lemma_concat_ascii(
                semis((t.dst_line - st.dst_line) as nat) + seg.0,
                encode_tokens_from(ts, i + 1, end, seg.1, Some(t)),
            );
        } else if prev == Some(t) {
            lemma_tokens_ascii(ts, i + 1, end, st, prev);
        } else {
            let comma: Seq<u8> = if prev is Some {
                seq![44u8]
            } else {
                Seq::<u8>::empty()
            };
            let seg = encode_segment(st, t);
            lemma_segment_ascii(st, t);
            lemma_tokens_ascii(ts, i + 1, end, seg.1, Some(t));
            assert(all_ascii(comma));
            lemma_concat_ascii(comma, seg.0);
            lemma_concat_ascii(comma + seg.0, encode_tokens_from(ts, i + 1, end, seg.1, Some(t)));
        }
    }
}

proof fn lemma_chunks_ascii(ts: Seq<Token>, chunks: Seq<TokenChunk>, k: int)
    ensures
        all_ascii(encode_chunks_from(ts, chunks, k)),
    decreases chunks.len() - k,
{
    if k < 0 || k >= chunks.len() {
    } else {
        lemma_tokens_ascii(
            ts,
            chunks[k].start as int,
            chunks[k].end as int,
            chunk_state(chunks[k]),
            chunk_prev_token(ts, chunks[k]),
        );
        lemma_chunks_ascii(ts, chunks, k + 1);
        lemma_concat_ascii(encode_chunk(ts, chunks[k]), encode_chunks_from(ts, chunks, k + 1));
    }
}

/// The wire encoding of a mapping is pure ASCII: base64 digits and the two
/// separators.
pub proof fn lemma_serialize_ascii(ts: Seq<Token>, chunks: Option<Seq<TokenChunk>>)
    ensures
        all_ascii(spec_serialize(ts, chunks)),
{
    match chunks {
        Some(cs) => lemma_chunks_ascii(ts, cs, 0),
        None => lemma_tokens_ascii(
            ts,
            0,
            default_chunk(ts).end as int,
            chunk_state(default_chunk(ts)),
            chunk_prev_token(ts, default_chunk(ts)),
        ),
    }
}

/// A byte sequence read as characters, one per byte.
pub open spec fn ascii_chars(bytes: Seq<u8>) -> Seq<char> {
    Seq::new(bytes.len(), |i: int| bytes[i] as char)
}

/// The `mappings` string of a map.
pub fn serialize_sourcemap_mappings_string(sm: &SourceMap) -> (r: String)
    requires
        sm.wf(),
        serializable(sm.tokens@, sm.spec_chunks()),
    ensures
        r@ == ascii_chars(spec_serialize(sm.tokens@, sm.spec_chunks())),
        vstd::utf8::encode_utf8(r@) == spec_serialize(sm.tokens@, sm.spec_chunks()),
{
    let bytes = serialize_sourcemap_mappings(sm);
    proof {
        lemma_serialize_ascii(sm.tokens@, sm.spec_chunks());
    }
    match ascii_to_string(bytes) {
        Some(s) => {
            proof {
                assert(s@ =~= ascii_chars(spec_serialize(sm.tokens@, sm.spec_chunks())));
            }
            s
        },
        None => {
            proof {
                assert(false);
            }
            String::new()
        },
    }
}

pub(crate) fn clone_strings(v: &Vec<String>) -> (r: Vec<String>)
    ensures
        r@ == v@,
{
    let mut out: Vec<String> = Vec::new();
    let n = v.len();
    let mut i: usize = 0;
    while i < n
        invariant
            n == v@.len(),
            i <= n,
            out@ =~= v@.take(i as int),
        decreases n - i,
    {
        out.push(v[i].clone());
        proof {
            assert(v@.take(i + 1) =~= v@.take(i as int).push(v@[i as int]));
        }
        i = i + 1;
    }
    proof {
        assert(v@.take(n as int) =~= v@);
    }
    out
}

pub(crate) fn clone_opt_string(v: &Option<String>) -> (r: Option<String>)
    ensures
        r == *v,
{
    match v {
        Some(s) => Some(s.clone()),
        None => None,
    }
}

pub(crate) fn clone_contents(v: &Vec<Option<String>>) -> (r: Vec<Option<String>>)
    ensures
        r@ == v@,
{
    let mut out: Vec<Option<String>> = Vec::new();
    let n = v.len();
    let mut i: usize = 0;
    while i < n
        invariant
            n == v@.len(),
            i <= n,
            out@ =~= v@.take(i as int),
        decreases n - i,
    {
        out.push(clone_opt_string(&v[i]));
        proof {
            assert(v@.take(i + 1) =~= v@.take(i as int).push(v@[i as int]));
        }
        i = i + 1;
    }
    proof {
        assert(v@.take(n as int) =~= v@);
    }
    out
}

pub(crate) fn clone_u32s(v: &Vec<u32>) -> (r: Vec<u32>)
    ensures
        r@ == v@,
{
    let mut out: Vec<u32> = Vec::new();
    let n = v.len();
    let mut i: usize = 0;
    while i < n
        invariant
            n == v@.len(),
            i <= n,
            out@ =~= v@.take(i as int),
        decreases n - i,
    {
        out.push(v[i]);
        proof {
            assert(v@.take(i + 1) =~= v@.take(i as int).push(v@[i as int]));
        }
        i = i + 1;
    }
    proof {
        assert(v@.take(n as int) =~= v@);
    }
    out
}

/// Re-encode a map as a wire document: the string tables move over, the
/// token stream becomes a fresh `mappings` string, and `sourcesContent` is
/// always present (empty when the map had none).
pub fn encode(sourcemap: &SourceMap) -> (r: JSONSourceMap)
    requires
        sourcemap.wf(),
        serializable(sourcemap.tokens@, sourcemap.spec_chunks()),
    ensures
        r.version == 3,
        r.file == sourcemap.file,
        r.mappings@ == ascii_chars(spec_serialize(sourcemap.tokens@, sourcemap.spec_chunks())),
        vstd::utf8::encode_utf8(r.mappings@) == spec_serialize(
            sourcemap.tokens@,
            sourcemap.spec_chunks(),
        ),
        r.source_root == sourcemap.source_root,
        r.sources@ == sourcemap.sources@,
        r.sources_content matches Some(c) && c@ == sourcemap.source_contents@,
        r.names@ == sourcemap.names@,
        r.debug_id == sourcemap.debug_id,
        match sourcemap.x_google_ignore_list {
            Some(_) => r.x_google_ignore_list matches Some(l) && l@
                == sourcemap.x_google_ignore_list->0@,
            None => r.x_google_ignore_list is None,
        },
{
    JSONSourceMap {
        version: 3,
        file: clone_opt_string(&sourcemap.file),
        mappings: serialize_sourcemap_mappings_string(sourcemap),
        source_root: clone_opt_string(&sourcemap.source_root),
        sources: clone_strings(&sourcemap.sources),
        sources_content: Some(clone_contents(&sourcemap.source_contents)),
        names: clone_strings(&sourcemap.names),
        debug_id: clone_opt_string(&sourcemap.debug_id),
        x_google_ignore_list: match &sourcemap.x_google_ignore_list {
            Some(l) => Some(clone_u32s(l)),
            None => None,
        },
    }
}

/// The decimal digits of `n`, most significant first.
pub open spec fn dec_bytes(n: nat) -> Seq<u8>
    decreases n,
{
    if n < 10 {
        seq![(48 + n) as u8]
    } else {
        dec_bytes(n / 10).push((48 + n % 10) as u8)
    }
}

/// Append the decimal digits of `n`.
fn push_dec(out: &mut Vec<u8>, n: u32)
    ensures
        final(out)@ == old(out)@ + dec_bytes(n as nat),
    decreases n,
{
    if n >= 10 {
        push_dec(out, n / 10);
    }
    out.push(48 + (n % 10) as u8);
    proof {
        if n < 10 {
            assert(old(out)@.push((48 + n) as u8) =~= old(out)@ + dec_bytes(n as nat));
        } else {
            assert((old(out)@ + dec_bytes((n / 10) as nat)).push((48 + n % 10) as u8) =~= old(
                out,
            )@ + dec_bytes(n as nat));
        }
    }
}

proof fn lemma_dec_bytes_ascii(n: nat)
    ensures
        all_ascii(dec_bytes(n)),
    decreases n,
{
    if n >= 10 {
        lemma_dec_bytes_ascii(n / 10);
    }
}

/// The decimal text of `n`.
fn decimal_string(n: u32) -> (r: String)
    ensures
        r@ == ascii_chars(dec_bytes(n as nat)),
{
    let mut buf: Vec<u8> = Vec::new();
    push_dec(&mut buf, n);
    proof {
        lemma_dec_bytes_ascii(n as nat);
    }
    match ascii_to_string(buf) {
        Some(s) => {
            proof {
                assert(s@ =~= ascii_chars(dec_bytes(n as nat)));
            }
            s
        },
        None => {
            proof {
                assert(false);
            }
            String::new()
        },
    }
}

/// The string views of a string table.
pub open spec fn string_views(v: Seq<String>) -> Seq<Seq<char>> {
    v.map_values(|s: String| s@)
}

/// The text each `sourcesContent` slot is written as: the content itself, or
/// the word `null` for an absent one (quoted and escaped like any other).
pub open spec fn content_views(v: Seq<Option<String>>) -> Seq<Seq<char>> {
    v.map_values(
        |c: Option<String>|
            match c {
                Some(s) => s@,
                None => "null"@,
            },
    )
}

/// The first `k` items, escaped and comma separated.
pub open spec fn escaped_prefix(items: Seq<Seq<char>>, k: int) -> Seq<char>
    decreases k,
{
    if k <= 0 {
        Seq::<char>::empty()
    } else if k == 1 {
        escape_of(items[0])
    } else {
        escaped_prefix(items, k - 1) + seq![','] + escape_of(items[k - 1])
    }
}

/// The first `k` ignore-list entries, in decimal, comma separated.
pub open spec fn dec_prefix(items: Seq<u32>, k: int) -> Seq<char>
    decreases k,
{
    if k <= 0 {
        Seq::<char>::empty()
    } else if k == 1 {
        ascii_chars(dec_bytes(items[0] as nat))
    } else {
        dec_prefix(items, k - 1) + seq![','] + ascii_chars(dec_bytes(items[k - 1] as nat))
    }
}

/// Append every item of a string table, escaped, separated by commas.
fn push_escaped_list(out: &mut String, items: &Vec<String>)
    ensures
        final(out)@ == old(out)@ + escaped_prefix(string_views(items@), items@.len() as int),
{
    let n = items.len();
    let mut k: usize = 0;
    while k < n
        invariant
            n == items@.len(),
            k <= n,
            out@ == old(out)@ + escaped_prefix(string_views(items@), k as int),
        decreases n - k,
    {
        if k > 0 {
            out.append(",");
            proof {
                reveal_strlit(",");
                assert(","@ =~= seq![',']);
            }
        }
        let escaped = escape_json_string(items[k].as_str());
        out.append(escaped.as_str());
        proof {
            assert(string_views(items@)[k as int] == items@[k as int]@);
            if k == 0 {
                assert(old(out)@ + escaped_prefix(string_views(items@), 0) =~= old(out)@);
            }
        }
        k = k + 1;
    }
}

/// Append every `sourcesContent` slot, escaped, `null` text for absent ones.
fn push_contents_list(out: &mut String, items: &Vec<Option<String>>)
    ensures
        final(out)@ == old(out)@ + escaped_prefix(content_views(items@), items@.len() as int),
{
    let n = items.len();
    let mut k: usize = 0;
    while k < n
        invariant
            n == items@.len(),
            k <= n,
            out@ == old(out)@ + escaped_prefix(content_views(items@), k as int),
        decreases n - k,
    {
        if k > 0 {
            out.append(",");
            proof {
                reveal_strlit(",");
                assert(","@ =~= seq![',']);
            }
        }
        let item: &str = match &items[k] {
            Some(s) => s.as_str(),
            None => "null",
        };
        let escaped = escape_json_string(item);
        out.append(escaped.as_str());
        proof {
            assert(content_views(items@)[k as int] == (match items@[k as int] {
                Some(s) => s@,
                None => "null"@,
            }));
            if k == 0 {
                assert(old(out)@ + escaped_prefix(content_views(items@), 0) =~= old(out)@);
            }
        }
        k = k + 1;
    }
}

/// Append every ignore-list entry in decimal, separated by commas.
fn push_dec_list(out: &mut String, items: &Vec<u32>)
    ensures
        final(out)@ == old(out)@ + dec_prefix(items@, items@.len() as int),
{
    let n = items.len();
    let mut k: usize = 0;
    while k < n
        invariant
            n == items@.len(),
            k <= n,
            out@ == old(out)@ + dec_prefix(items@, k as int),
        decreases n - k,
    {
        if k > 0 {
            out.append(",");
            proof {
                reveal_strlit(",");
                assert(","@ =~= seq![',']);
            }
        }
        let digits = decimal_string(items[k]);
        out.append(digits.as_str());
        proof {
            if k == 0 {
                assert(old(out)@ + dec_prefix(items@, 0) =~= old(out)@);
            }
        }
        k = k + 1;
    }
}

/// The whole JSON text `encode_to_string` produces, character by character.
pub open spec fn spec_json_document(sm: SourceMap) -> Seq<char> {
    "{\"version\":3,"@ + (match sm.file {
        Some(f) => "\"file\":\""@ + f@ + "\","@,
        None => Seq::<char>::empty(),
    }) + (match sm.source_root {
        Some(x) => "\"sourceRoot\":\""@ + x@ + "\","@,
        None => Seq::<char>::empty(),
    }) + "\"names\":["@ + escaped_prefix(string_views(sm.names@), sm.names@.len() as int)
        + "],\"sources\":["@ + escaped_prefix(string_views(sm.sources@), sm.sources@.len() as int)
        + "],\"sourcesContent\":["@ + escaped_prefix(
        content_views(sm.source_contents@),
        sm.source_contents@.len() as int,
    ) + (match sm.x_google_ignore_list {
        Some(l) => "],\"x_google_ignoreList\":["@ + dec_prefix(l@, l@.len() as int),
        None => Seq::<char>::empty(),
    }) + "],\"mappings\":\""@ + ascii_chars(spec_serialize(sm.tokens@, sm.spec_chunks())) + (
    match sm.debug_id {
        Some(d) => "\",\"debugId\":\""@ + d@,
        None => Seq::<char>::empty(),
    }) + "\"}"@
}

/// Write a map as one JSON document. The `file`, `sourceRoot` and `debugId`
/// strings are written as they are; names, sources and contents go through
/// the escaping service; an absent content slot is written as the text
/// `null` (escaped and quoted like the rest).
#[verifier::rlimit(100)]
pub fn encode_to_string(sourcemap: &SourceMap) -> (r: String)
    requires
        sourcemap.wf(),
        serializable(sourcemap.tokens@, sourcemap.spec_chunks()),
    ensures
        r@ == spec_json_document(*sourcemap),
{
    let sm = sourcemap;
    let ghost d1 = "{\"version\":3,"@ + (match &sm.file {
        Some(f) => "\"file\":\""@ + f@ + "\","@,
        None => Seq::<char>::empty(),
    });
    let ghost d2 = d1 + (match &sm.source_root {
        Some(x) => "\"sourceRoot\":\""@ + x@ + "\","@,
        None => Seq::<char>::empty(),
    });
    let ghost d3 = d2 + "\"names\":["@ + escaped_prefix(
        string_views(sm.names@),
        sm.names@.len() as int,
    );
    let ghost d4 = d3 + "],\"sources\":["@ + escaped_prefix(
        string_views(sm.sources@),
        sm.sources@.len() as int,
    );
    let ghost d5 = d4 + "],\"sourcesContent\":["@ + escaped_prefix(
        content_views(sm.source_contents@),
        sm.source_contents@.len() as int,
    );
    let ghost d6 = d5 + (match &sm.x_google_ignore_list {
        Some(l) => "],\"x_google_ignoreList\":["@ + dec_prefix(l@, l@.len() as int),
        None => Seq::<char>::empty(),
    });
    let ghost d7 = d6 + "],\"mappings\":\""@ + ascii_chars(
        spec_serialize(sm.tokens@, sm.spec_chunks()),
    );
    let ghost d8 = d7 + (match &sm.debug_id {
        Some(d) => "\",\"debugId\":\""@ + d@,
        None => Seq::<char>::empty(),
    });
    let mut contents = String::new();
    contents.append("{\"version\":3,");
    match &sm.file {
        Some(file) => {
            contents.append("\"file\":\"");
            contents.append(file.as_str());
            contents.append("\",");
        },
        None => {
            proof {
                assert(contents@ + Seq::<char>::empty() =~= contents@);
            }
        },
    }
    proof {
        assert(contents@ == d1);
    }
    match &sm.source_root {
        Some(source_root) => {
            contents.append("\"sourceRoot\":\"");
            contents.append(source_root.as_str());
            contents.append("\",");
        },
        None => {
            proof {
                assert(contents@ + Seq::<char>::empty() =~= contents@);
            }
        },
    }
    proof {
        assert(contents@ == d2);
    }
    contents.append("\"names\":[");
    push_escaped_list(&mut contents, &sm.names);
    proof {
        assert(contents@ == d3);
    }
    contents.append("],\"sources\":[");
    push_escaped_list(&mut contents, &sm.sources);
    proof {
        assert(contents@ == d4);
    }
    contents.append("],\"sourcesContent\":[");
    push_contents_list(&mut contents, &sm.source_contents);
    proof {
        assert(contents@ == d5);
    }
    match &sm.x_google_ignore_list {
        Some(ignore_list) => {
            contents.append("],\"x_google_ignoreList\":[");
            push_dec_list(&mut contents, ignore_list);
        },
        None => {
            proof {
                assert(contents@ + Seq::<char>::empty() =~= contents@);
            }
        },
    }
    proof {
        assert(contents@ == d6);
    }
    contents.append("],\"mappings\":\"");
    let mappings = serialize_sourcemap_mappings_string(sm);
    contents.append(mappings.as_str());
    proof {
        assert(contents@ == d7);
    }
    match &sm.debug_id {
        Some(debug_id) => {
            contents.append("\",\"debugId\":\"");
            contents.append(debug_id.as_str());
        },
        None => {
            proof {
                assert(contents@ + Seq::<char>::empty() =~= contents@);
            }
        },
    }
    proof {
        assert(contents@ == d8);
    }
    contents.append("\"}");
    proof {
        assert(contents@ == spec_json_document(*sm));
    }
    contents
}

} // verus!
