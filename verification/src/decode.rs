//! Decoding of the `mappings` string into a token stream.
//!
//! The string is segments separated by `,` (next token on the same generated
//! line) and `;` (next generated line, column reset). Every segment carries
//! 1, 4 or 5 VLQ deltas against the running decoder state.

use vstd::prelude::*;
use vstd::string::StringSliceAdditionalSpecFns;

use crate::error::Error;
use crate::outside::{json_as_array, json_as_str, json_as_u64, json_get, json_is_null, parse_json};
use crate::sourcemap::SourceMap;
use crate::token::{Token, Tokens, INVALID_ID};
use crate::vlq::{is_sep, parse_segment, parse_vlq_segment, vlq_unfold};

verus! {

/// The Source Map v3 wire document, with the envelope fields already pulled
/// out of the JSON text.
#[derive(Debug)]
pub struct JSONSourceMap {
    /// Must be `3`.
    pub version: u32,
    /// Name of the generated artifact this map belongs to.
    pub file: Option<String>,
    /// The encoded mapping data.
    pub mappings: String,
    /// Prepended to each entry of `sources` by consumers.
    pub source_root: Option<String>,
    /// The original sources the mappings point into.
    pub sources: Vec<String>,
    /// Embedded text of the sources, in the same order; `None` stands for
    /// "fetch by name".
    pub sources_content: Option<Vec<Option<String>>>,
    /// The symbol names the mappings point at.
    pub names: Vec<String>,
    /// Correlates the map with its artifact across build tooling.
    pub debug_id: Option<String>,
    /// Indices into `sources` flagged as third-party code.
    pub x_google_ignore_list: Option<Vec<u32>>,
}

/// The running state a mapping is decoded against. Deltas accumulate into it
/// across the whole string; only `dst_col` resets at a line break.
pub struct DecodeState {
    pub dst_line: u32,
    pub dst_col: u32,
    pub src_id: u32,
    pub src_line: u32,
    pub src_col: u32,
    pub name_id: u32,
}

/// An integer reduced to 32 bits, as a plain `as` cast would.
pub open spec fn wrap32(x: int) -> u32 {
    (x % 0x1_0000_0000) as u32
}

/// Decoding starts from all-zero state.
pub open spec fn initial_state() -> DecodeState {
    DecodeState { dst_line: 0, dst_col: 0, src_id: 0, src_line: 0, src_col: 0, name_id: 0 }
}

/// Every value a VLQ group run can produce fits well inside `i64`.
pub open spec fn vlq_val_bounded(v: i64) -> bool {
    -0x4000_0000_0000_0000 <= v <= 0x4000_0000_0000_0000
}

/// What one segment's values do to the running state, and the token they
/// produce. A 1-value segment moves only the generated column; 4 values add a
/// source position; a 5th adds a name. Any other count is rejected, as are
/// negative columns and lines and out-of-range ids.
pub open spec fn apply_segment(
    st: DecodeState,
    vals: Seq<i64>,
    names_len: nat,
    sources_len: nat,
) -> Result<(DecodeState, Token), Error> {
    let n = vals.len();
    let new_dst_col = st.dst_col + vals[0];
    if new_dst_col < 0 {
        Err(Error::BadSegmentSize(0))
    } else {
        let dst_col = wrap32(new_dst_col);
        if n == 1 {
            Ok(
                (
                    DecodeState { dst_col, ..st },
                    Token {
                        dst_line: st.dst_line,
                        dst_col,
                        src_line: st.src_line,
                        src_col: st.src_col,
                        source_id: INVALID_ID,
                        name_id: INVALID_ID,
                    },
                ),
            )
        } else if n != 4 && n != 5 {
            Err(Error::BadSegmentSize(wrap32(n as int)))
        } else {
            let new_src_id = st.src_id + vals[1];
            if new_src_id < 0 || new_src_id >= sources_len {
                Err(Error::BadSourceReference(st.src_id))
            } else {
                let src_id = wrap32(new_src_id);
                let new_src_line = st.src_line + vals[2];
                if new_src_line < 0 {
                    Err(Error::BadSegmentSize(0))
                } else {
                    let src_line = wrap32(new_src_line);
                    let new_src_col = st.src_col + vals[3];
                    if new_src_col < 0 {
                        Err(Error::BadSegmentSize(0))
                    } else {
                        let src_col = wrap32(new_src_col);
                        if n == 4 {
                            Ok(
                                (
                                    DecodeState { dst_col, src_id, src_line, src_col, ..st },
                                    Token {
                                        dst_line: st.dst_line,
                                        dst_col,
                                        src_line,
                                        src_col,
                                        source_id: src_id,
                                        name_id: INVALID_ID,
                                    },
                                ),
                            )
                        } else {
                            let new_name_id = st.name_id + vals[4];
                            if new_name_id < 0 || new_name_id >= names_len {
                                Err(Error::BadNameReference(wrap32(new_name_id)))
                            } else {
                                let name_id = wrap32(new_name_id);
                                Ok(
                                    (
                                        DecodeState {
                                            dst_line: st.dst_line,
                                            dst_col,
                                            src_id,
                                            src_line,
                                            src_col,
                                            name_id,
                                        },
                                        Token {
                                            dst_line: st.dst_line,
                                            dst_col,
                                            src_line,
                                            src_col,
                                            source_id: src_id,
                                            name_id,
                                        },
                                    ),
                                )
                            }
                        }
                    }
                }
            }
        }
    }
}

/// A successful segment scan stops at a separator or at the end, strictly
/// ahead of where it started, with at least one value, all of them bounded.
pub proof fn lemma_parse_segment_props(s: Seq<u8>, i: int, cur: u64, shift: nat, vals: Seq<i64>)
    requires
        0 <= i <= s.len(),
        forall|k: int| 0 <= k < vals.len() ==> vlq_val_bounded(#[trigger] vals[k]),
    ensures
        parse_segment(s, i, cur, shift, vals) matches Ok(p) ==> {
            &&& i <= p.1 <= s.len()
            &&& (i < s.len() && !is_sep(s[i]) ==> i + 1 <= p.1)
            &&& 1 <= p.0.len()
            &&& vals.len() <= p.0.len()
            &&& (p.1 == s.len() || is_sep(s[p.1 as int]))
            &&& forall|k: int| 0 <= k < p.0.len() ==> vlq_val_bounded(#[trigger] p.0[k])
        },
    decreases s.len() - i,
{
    if i >= s.len() || is_sep(s[i]) {
    } else {
        let enc = crate::vlq::b64_value_of(s[i]);
        let val = if enc == -1 {
            31int
        } else {
            enc % 32
        };
        if shift <= 60 {
            let cur2 = crate::vlq::wrap64(cur + val * vstd::arithmetic::power2::pow2(shift));
            let pushed = vals.push(vlq_unfold(cur2));
            assert(vlq_val_bounded(vlq_unfold(cur2)));
            assert(forall|k: int| 0 <= k < pushed.len() ==> vlq_val_bounded(#[trigger] pushed[k]));
            lemma_parse_segment_props(s, i + 1, cur2, (shift + 5) as nat, vals);
            lemma_parse_segment_props(s, i + 1, 0u64, 0nat, pushed);
        }
    }
}

/// The whole mapping, decoded from position `i` against state `st`, with the
/// tokens already produced in `acc`. This is the exact meaning of the wire
/// format as this library reads it.
pub open spec fn decode_mapping_from(
    s: Seq<u8>,
    i: int,
    st: DecodeState,
    acc: Seq<Token>,
    names_len: nat,
    sources_len: nat,
) -> Result<Seq<Token>, Error>
    decreases s.len() - i,
        when 0 <= i <= s.len()
        via decode_mapping_from_dec
{
    if i >= s.len() {
        Ok(acc)
    } else if s[i] == 44 {
        decode_mapping_from(s, i + 1, st, acc, names_len, sources_len)
    } else if s[i] == 59 {
        let st2 = DecodeState { dst_line: wrap32(st.dst_line + 1), dst_col: 0, ..st };
        decode_mapping_from(s, i + 1, st2, acc, names_len, sources_len)
    } else {
        match parse_segment(s, i, 0u64, 0nat, Seq::<i64>::empty()) {
            Err(e) => Err(e),
            Ok(p) => match apply_segment(st, p.0, names_len, sources_len) {
                Err(e) => Err(e),
                Ok(next) => decode_mapping_from(
                    s,
                    p.1,
                    next.0,
                    acc.push(next.1),
                    names_len,
                    sources_len,
                ),
            },
        }
    }
}

#[via_fn]
proof fn decode_mapping_from_dec(
    s: Seq<u8>,
    i: int,
    st: DecodeState,
    acc: Seq<Token>,
    names_len: nat,
    sources_len: nat,
) {
    if 0 <= i && i < s.len() && s[i] != 44 && s[i] != 59 {
        lemma_parse_segment_props(s, i, 0u64, 0nat, Seq::<i64>::empty());
    }
}

/// The meaning of a whole mapping string.
pub open spec fn spec_decode_mapping(s: Seq<u8>, names_len: nat, sources_len: nat) -> Result<
    Seq<Token>,
    Error,
> {
    decode_mapping_from(s, 0, initial_state(), Seq::<Token>::empty(), names_len, sources_len)
}

/// Decode a mapping string into a token store, checking every source id
/// against `sources_len` and every name id against `names_len`.
pub fn decode_mapping(mapping: &str, names_len: usize, sources_len: usize) -> (r: Result<
    Tokens,
    Error,
>)
    ensures
        match spec_decode_mapping(mapping.spec_bytes(), names_len as nat, sources_len as nat) {
            Ok(ts) => r matches Ok(t) && t.wf() && t@ == ts,
            Err(e) => r matches Err(e2) && e2 == e,
        },
{
    let bytes: &[u8] = mapping.as_bytes();
    let n = bytes.len();
    let mut tokens = Tokens::new();
    let mut dst_line: u32 = 0;
    let mut dst_col: u32 = 0;
    let mut src_id: u32 = 0;
    let mut src_line: u32 = 0;
    let mut src_col: u32 = 0;
    let mut name_id: u32 = 0;
    let mut i: usize = 0;
    while i < n
        invariant
            n == bytes@.len(),
            bytes@ == mapping.spec_bytes(),
            i <= n,
            tokens.wf(),
            decode_mapping_from(
                bytes@,
                i as int,
                (DecodeState { dst_line, dst_col, src_id, src_line, src_col, name_id }),
                tokens@,
                names_len as nat,
                sources_len as nat,
            ) == spec_decode_mapping(bytes@, names_len as nat, sources_len as nat),
        decreases n - i,
    {
        let c = bytes[i];
        if c == 44 {
            i = i + 1;
        } else if c == 59 {
            proof {
                if dst_line == 0xffff_ffffu32 {
                    assert(0x1_0000_0000int % 0x1_0000_0000int == 0);
                    assert(wrap32(dst_line + 1) == 0);
                } else {
                    vstd::arithmetic::div_mod::lemma_small_mod(
                        (dst_line + 1) as nat,
                        0x1_0000_0000nat,
                    );
                }
            }
            dst_line = dst_line.wrapping_add(1);
            dst_col = 0;
            i = i + 1;
        } else {
            let ghost st = DecodeState { dst_line, dst_col, src_id, src_line, src_col, name_id };
            proof {
                lemma_parse_segment_props(bytes@, i as int, 0u64, 0nat, Seq::<i64>::empty());
            }
            let (vals, next) = match parse_vlq_segment(bytes, i) {
                Ok(p) => p,
                Err(e) => {
                    return Err(e);
                },
            };
            let ghost ap = apply_segment(
                st,
                vals@,
                names_len as nat,
                sources_len as nat,
            );
            let nvals = vals.len();
            let new_dst_col: i64 = dst_col as i64 + vals[0];
            if new_dst_col < 0 {
                return Err(Error::BadSegmentSize(0));
            }
            dst_col = (new_dst_col % 0x1_0000_0000i64) as u32;
            let mut src: u32 = INVALID_ID;
            let mut name: u32 = INVALID_ID;
            if nvals > 1 {
                if nvals != 4 && nvals != 5 {
                    return Err(Error::BadSegmentSize(((nvals as u64) % 0x1_0000_0000u64) as u32));
                }
                let new_src_id: i64 = src_id as i64 + vals[1];
                if new_src_id < 0 || new_src_id as u64 >= sources_len as u64 {
                    return Err(Error::BadSourceReference(src_id));
                }
                src_id = (new_src_id % 0x1_0000_0000i64) as u32;
                src = src_id;
                let new_src_line: i64 = src_line as i64 + vals[2];
                if new_src_line < 0 {
                    return Err(Error::BadSegmentSize(0));
                }
                src_line = (new_src_line % 0x1_0000_0000i64) as u32;
                let new_src_col: i64 = src_col as i64 + vals[3];
                if new_src_col < 0 {
                    return Err(Error::BadSegmentSize(0));
                }
                src_col = (new_src_col % 0x1_0000_0000i64) as u32;
                if nvals > 4 {
                    let new_name_id: i64 = name_id as i64 + vals[4];
                    if new_name_id < 0 || new_name_id as u64 >= names_len as u64 {
                        // when negative, shift by a multiple of 2^32 first, so
                        // the remainder is taken of a non-negative value
                        let payload: u32 = if new_name_id < 0 {
                            proof {
                                vstd::arithmetic::div_mod::lemma_mod_multiples_vanish(
                                    0x4000_0000int,
                                    new_name_id as int,
                                    0x1_0000_0000int,
                                );
                            }
                            ((new_name_id + 0x4000_0000_0000_0000i64) % 0x1_0000_0000i64) as u32
                        } else {
                            (new_name_id % 0x1_0000_0000i64) as u32
                        };
                        return Err(Error::BadNameReference(payload));
                    }
                    name_id = (new_name_id % 0x1_0000_0000i64) as u32;
                    name = name_id;
                }
            }
            let token = Token {
                dst_line,
                dst_col,
                src_line,
                src_col,
                source_id: src,
                name_id: name,
            };
            proof {
                assert(ap matches Ok(q) && q.1 == token && q.0 == (DecodeState {
                    dst_line,
                    dst_col,
                    src_id,
                    src_line,
                    src_col,
                    name_id,
                }));
            }
            tokens.push(token);
            i = next;
        }
    }
    Ok(tokens)
}

/// The first ignore-list entry from `k` on that is not a valid source index.
pub open spec fn first_bad_ignore_from(list: Seq<u32>, sources_len: nat, k: int) -> Option<u32>
    decreases list.len() - k,
{
    if k < 0 || k >= list.len() {
        None
    } else if list[k] >= sources_len {
        Some(list[k])
    } else {
        first_bad_ignore_from(list, sources_len, k + 1)
    }
}

/// The ignore list of an envelope, or empty when it carries none.
pub open spec fn spec_ignore_list(json: JSONSourceMap) -> Seq<u32> {
    match json.x_google_ignore_list {
        Some(l) => l@,
        None => Seq::<u32>::empty(),
    }
}

/// Decode a wire document into a source map: reject a version other than 3,
/// reject the first out-of-range ignore-list entry, then decode the mapping
/// string against the document's name and source counts. The string tables
/// move over unchanged; an absent `sourcesContent` becomes an empty one.
pub fn decode(json: JSONSourceMap) -> (r: Result<SourceMap, Error>)
    ensures
        json.version != 3 ==> (r matches Err(e) && e == Error::UnsupportedVersion),
        json.version == 3 ==> match first_bad_ignore_from(
            spec_ignore_list(json),
            json.sources@.len(),
            0,
        ) {
            Some(idx) => (r matches Err(e) && e == Error::BadSourceReference(idx)),
            None => match spec_decode_mapping(
                encode_utf8_bytes(json.mappings@),
                json.names@.len(),
                json.sources@.len(),
            ) {
                Err(e) => (r matches Err(e2) && e2 == e),
                Ok(ts) => (r matches Ok(sm) && {
                    &&& sm.wf()
                    &&& sm.tokens@ == ts
                    &&& sm.file == json.file
                    &&& sm.names == json.names
                    &&& sm.source_root == json.source_root
                    &&& sm.sources == json.sources
                    &&& (match json.sources_content {
                        Some(c) => sm.source_contents == c,
                        None => sm.source_contents@.len() == 0,
                    })
                    &&& sm.token_chunks is None
                    &&& sm.x_google_ignore_list == json.x_google_ignore_list
                    &&& sm.debug_id == json.debug_id
                }),
            },
        },
{
    if json.version != 3 {
        return Err(Error::UnsupportedVersion);
    }
    match &json.x_google_ignore_list {
        Some(ignore_list) => {
            let n = ignore_list.len();
            let m = json.sources.len();
            let mut k: usize = 0;
            while k < n
                invariant
                    json.version == 3,
                    n == ignore_list@.len(),
                    m == json.sources@.len(),
                    k <= n,
                    ignore_list@ == spec_ignore_list(json),
                    first_bad_ignore_from(ignore_list@, m as nat, 0) == first_bad_ignore_from(
                        ignore_list@,
                        m as nat,
                        k as int,
                    ),
                decreases n - k,
            {
                let idx = ignore_list[k];
                if idx as u64 >= m as u64 {
                    return Err(Error::BadSourceReference(idx));
                }
                k = k + 1;
            }
        },
        None => {},
    }
    let tokens = match decode_mapping(json.mappings.as_str(), json.names.len(), json.sources.len())
    {
        Ok(tokens) => tokens,
        Err(e) => {
            return Err(e);
        },
    };
    let source_contents: Vec<Option<String>> = match json.sources_content {
        Some(c) => c,
        None => Vec::new(),
    };
    let mut sm = SourceMap::new(
        json.file,
        json.names,
        json.source_root,
        json.sources,
        source_contents,
        tokens,
        None,
    );
    sm.x_google_ignore_list = json.x_google_ignore_list;
    sm.debug_id = json.debug_id;
    Ok(sm)
}

/// The UTF-8 bytes a string's characters stand for.
pub open spec fn encode_utf8_bytes(s: Seq<char>) -> Seq<u8> {
    vstd::utf8::encode_utf8(s)
}

/// An optional string envelope field: absent or `null` counts as `None`, any
/// other non-string shape is rejected.
fn opt_string_field(value: &serde_json::Value, key: &str) -> (r: Result<Option<String>, Error>) {
    match json_get(value, key) {
        None => Ok(None),
        Some(v) => {
            if json_is_null(v) {
                Ok(None)
            } else {
                match json_as_str(v) {
                    Some(s) => Ok(Some(s.to_owned())),
                    None => Err(Error::InvalidJson),
                }
            }
        },
    }
}

/// A JSON array of strings.
fn string_array(v: &serde_json::Value) -> (r: Result<Vec<String>, Error>) {
    let items = match json_as_array(v) {
        Some(items) => items,
        None => {
            return Err(Error::InvalidJson);
        },
    };
    let n = items.len();
    let mut out: Vec<String> = Vec::new();
    let mut i: usize = 0;
    while i < n
        invariant
            n == items@.len(),
            i <= n,
        decreases n - i,
    {
        match json_as_str(&items[i]) {
            Some(s) => out.push(s.to_owned()),
            None => {
                return Err(Error::InvalidJson);
            },
        }
        i = i + 1;
    }
    Ok(out)
}

/// Pull the envelope fields out of a parsed JSON document. Only shapes the
/// wire format allows pass; a `version` other than 3 is rejected on its own.
pub fn from_json_value(value: &serde_json::Value) -> (r: Result<JSONSourceMap, Error>)
    ensures
        r matches Ok(j) ==> j.version == 3,
{
    let version_value = match json_get(value, "version") {
        Some(v) => v,
        None => {
            return Err(Error::InvalidJson);
        },
    };
    let version64 = match json_as_u64(version_value) {
        Some(n) => n,
        None => {
            return Err(Error::InvalidJson);
        },
    };
    if version64 != 3 {
        return Err(Error::UnsupportedVersion);
    }
    let file = match opt_string_field(value, "file") {
        Ok(f) => f,
        Err(e) => {
            return Err(e);
        },
    };
    let mappings_value = match json_get(value, "mappings") {
        Some(v) => v,
        None => {
            return Err(Error::InvalidJson);
        },
    };
    let mappings = match json_as_str(mappings_value) {
        Some(s) => s.to_owned(),
        None => {
            return Err(Error::InvalidJson);
        },
    };
    let source_root = match opt_string_field(value, "sourceRoot") {
        Ok(f) => f,
        Err(e) => {
            return Err(e);
        },
    };
    let sources = match json_get(value, "sources") {
        Some(v) => match string_array(v) {
            Ok(list) => list,
            Err(e) => {
                return Err(e);
            },
        },
        None => {
            return Err(Error::InvalidJson);
        },
    };
    let sources_content: Option<Vec<Option<String>>> = match json_get(value, "sourcesContent") {
        None => None,
        Some(v) => {
            if json_is_null(v) {
                None
            } else {
                let items = match json_as_array(v) {
                    Some(items) => items,
                    None => {
                        return Err(Error::InvalidJson);
                    },
                };
                let n = items.len();
                let mut out: Vec<Option<String>> = Vec::new();
                let mut i: usize = 0;
                while i < n
                    invariant
                        n == items@.len(),
                        i <= n,
                    decreases n - i,
                {
                    let entry = &items[i];
                    if json_is_null(entry) {
                        out.push(None);
                    } else {
                        match json_as_str(entry) {
                            Some(s) => out.push(Some(s.to_owned())),
                            None => {
                                return Err(Error::InvalidJson);
                            },
                        }
                    }
                    i = i + 1;
                }
                Some(out)
            }
        },
    };
    let names = match json_get(value, "names") {
        Some(v) => match string_array(v) {
            Ok(list) => list,
            Err(e) => {
                return Err(e);
            },
        },
        None => Vec::new(),
    };
    let debug_id = match opt_string_field(value, "debugId") {
        Ok(f) => f,
        Err(e) => {
            return Err(e);
        },
    };
    let ignore_value = match json_get(value, "x_google_ignoreList") {
        Some(v) => Some(v),
        None => json_get(value, "ignoreList"),
    };
    let x_google_ignore_list: Option<Vec<u32>> = match ignore_value {
        None => None,
        Some(v) => {
            if json_is_null(v) {
                None
            } else {
                let items = match json_as_array(v) {
                    Some(items) => items,
                    None => {
                        return Err(Error::InvalidJson);
                    },
                };
                let n = items.len();
                let mut out: Vec<u32> = Vec::new();
                let mut i: usize = 0;
                while i < n
                    invariant
                        n == items@.len(),
                        i <= n,
                    decreases n - i,
                {
                    match json_as_u64(&items[i]) {
                        Some(x) => {
                            if x > 0xffff_ffffu64 {
                                return Err(Error::InvalidJson);
                            }
                            out.push(x as u32);
                        },
                        None => {
                            return Err(Error::InvalidJson);
                        },
                    }
                    i = i + 1;
                }
                Some(out)
            }
        },
    };
    Ok(
        JSONSourceMap {
            version: 3,
            file,
            mappings,
            source_root,
            sources,
            sources_content,
            names,
            debug_id,
            x_google_ignore_list,
        },
    )
}

/// Decode a source map from JSON text: parse the document, pull the envelope
/// fields out, then decode as [`decode`] does. What the parse hands back
/// decides; the decoding of whatever came back is exact in [`decode`].
pub fn decode_from_string(value: &str) -> (r: Result<SourceMap, Error>)
    ensures
        r matches Ok(sm) ==> sm.wf() && sm.token_chunks is None,
{
    let parsed = match parse_json(value) {
        Some(v) => v,
        None => {
            return Err(Error::InvalidJson);
        },
    };
    let json = match from_json_value(&parsed) {
        Ok(j) => j,
        Err(e) => {
            return Err(e);
        },
    };
    decode(json)
}

} // verus!
