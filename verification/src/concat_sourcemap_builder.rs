//! Concatenation of several source maps into one: string tables appended
//! verbatim, tokens re-emitted with line and id offsets, one chunk recorded
//! per input so the result re-encodes without re-reading earlier chunks.

use vstd::prelude::*;

use crate::sourcemap::SourceMap;
use crate::token::{Token, TokenChunk, Tokens, INVALID_ID};

verus! {

/// Everything a concatenation builder holds, as one mathematical value.
pub struct BuilderModel {
    pub names: Seq<String>,
    pub sources: Seq<String>,
    pub source_contents: Seq<Option<String>>,
    pub tokens: Seq<Token>,
    pub token_chunks: Seq<TokenChunk>,
    pub prev_source_id: u32,
    pub prev_name_id: u32,
}

/// A builder starts from nothing.
pub open spec fn empty_model() -> BuilderModel {
    BuilderModel {
        names: Seq::<String>::empty(),
        sources: Seq::<String>::empty(),
        source_contents: Seq::<Option<String>>::empty(),
        tokens: Seq::<Token>::empty(),
        token_chunks: Seq::<TokenChunk>::empty(),
        prev_source_id: 0,
        prev_name_id: 0,
    }
}

/// One input token re-addressed for the combined map: its generated line
/// shifted down, its ids renumbered past the tables already present.
pub open spec fn shift_token(t: Token, line_offset: u32, source_offset: int, name_offset: int) -> Token {
    Token {
        dst_line: (t.dst_line + line_offset) as u32,
        dst_col: t.dst_col,
        src_line: t.src_line,
        src_col: t.src_col,
        source_id: if t.source_id == INVALID_ID {
            INVALID_ID
        } else {
            (t.source_id + source_offset) as u32
        },
        name_id: if t.name_id == INVALID_ID {
            INVALID_ID
        } else {
            (t.name_id + name_offset) as u32
        },
    }
}

/// A whole input stream, re-addressed.
pub open spec fn shifted_tokens(
    ts: Seq<Token>,
    line_offset: u32,
    source_offset: int,
    name_offset: int,
) -> Seq<Token> {
    Seq::new(ts.len(), |j: int| shift_token(ts[j], line_offset, source_offset, name_offset))
}

/// The last present source id among the first `k` tokens, or the fallback.
pub open spec fn run_prev_source(ts: Seq<Token>, k: int, dflt: u32) -> u32
    decreases k,
{
    if k <= 0 {
        dflt
    } else if ts[k - 1].source_id != INVALID_ID {
        ts[k - 1].source_id
    } else {
        run_prev_source(ts, k - 1, dflt)
    }
}

/// The last present name id among the first `k` tokens, or the fallback.
pub open spec fn run_prev_name(ts: Seq<Token>, k: int, dflt: u32) -> u32
    decreases k,
{
    if k <= 0 {
        dflt
    } else if ts[k - 1].name_id != INVALID_ID {
        ts[k - 1].name_id
    } else {
        run_prev_name(ts, k - 1, dflt)
    }
}

/// What appending one map does to a builder: tables appended verbatim,
/// tokens re-addressed, a duplicate boundary token dropped, and one chunk
/// recorded whose snapshot is the state just before this input.
pub open spec fn spec_add(b: BuilderModel, sm: SourceMap, line_offset: u32) -> BuilderModel {
    let so = b.sources.len() as int;
    let no = b.names.len() as int;
    let start = b.tokens.len() as int;
    let shifted = shifted_tokens(sm.tokens@, line_offset, so, no);
    let dropped = b.tokens.len() > 0 && shifted.len() > 0 && b.tokens.last() == shifted.first();
    let new_tokens = b.tokens + (if dropped {
        shifted.drop_first()
    } else {
        shifted
    });
    let chunk = if start == 0 {
        TokenChunk {
            start: 0,
            end: new_tokens.len() as u32,
            prev_dst_line: 0,
            prev_dst_col: 0,
            prev_src_line: 0,
            prev_src_col: 0,
            prev_name_id: 0,
            prev_source_id: 0,
        }
    } else {
        TokenChunk {
            start: start as u32,
            end: new_tokens.len() as u32,
            prev_dst_line: b.tokens.last().dst_line,
            prev_dst_col: b.tokens.last().dst_col,
            prev_src_line: b.tokens.last().src_line,
            prev_src_col: b.tokens.last().src_col,
            prev_name_id: b.prev_name_id,
            prev_source_id: b.prev_source_id,
        }
    };
    BuilderModel {
        names: b.names + sm.names@,
        sources: b.sources + sm.sources@,
        source_contents: b.source_contents + sm.source_contents@,
        tokens: new_tokens,
        token_chunks: b.token_chunks.push(chunk),
        prev_source_id: run_prev_source(shifted, shifted.len() as int, b.prev_source_id),
        prev_name_id: run_prev_name(shifted, shifted.len() as int, b.prev_name_id),
    }
}

/// The room one more map needs: combined lengths that still fit the id
/// space, and shifted lines and ids that stay in range.
pub open spec fn can_append(b: BuilderModel, sm: SourceMap, line_offset: u32) -> bool {
    &&& b.sources.len() + sm.sources@.len() <= 0xffff_ffff
    &&& b.names.len() + sm.names@.len() <= 0xffff_ffff
    &&& b.tokens.len() + sm.tokens@.len() <= 0xffff_ffff
    &&& forall|j: int|
        0 <= j < sm.tokens@.len() ==> {
            let t = #[trigger] sm.tokens@[j];
            &&& t.dst_line + line_offset <= 0xffff_ffff
            &&& (t.source_id != INVALID_ID ==> t.source_id + b.sources.len() < INVALID_ID)
            &&& (t.name_id != INVALID_ID ==> t.name_id + b.names.len() < INVALID_ID)
        }
}

/// Appending a whole list of maps, one after the other.
pub open spec fn spec_add_all(
    b: BuilderModel,
    maps: Seq<(&SourceMap, u32)>,
    k: int,
) -> BuilderModel
    decreases maps.len() - k,
{
    if k < 0 || k >= maps.len() {
        b
    } else {
        spec_add_all(spec_add(b, *maps[k].0, maps[k].1), maps, k + 1)
    }
}

/// Every map of the list fits when added in order.
pub open spec fn can_append_all(b: BuilderModel, maps: Seq<(&SourceMap, u32)>, k: int) -> bool
    decreases maps.len() - k,
{
    k >= maps.len() || (k >= 0 && (*maps[k].0).wf() && can_append(b, *maps[k].0, maps[k].1)
        && can_append_all(spec_add(b, *maps[k].0, maps[k].1), maps, k + 1))
}

/// Builds one combined map out of several, applying a generated-line offset
/// to each input and renumbering its name and source ids past the tables
/// already gathered.
#[derive(Debug)]
pub struct ConcatSourceMapBuilder {
    pub names: Vec<String>,
    pub sources: Vec<String>,
    pub source_contents: Vec<Option<String>>,
    pub tokens: Tokens,
    /// One chunk per added map, for segmented re-encoding.
    pub token_chunks: Vec<TokenChunk>,
    pub token_chunk_prev_source_id: u32,
    pub token_chunk_prev_name_id: u32,
}

fn extend_strings(dst: &mut Vec<String>, src: &Vec<String>)
    ensures
        final(dst)@ == old(dst)@ + src@,
{
    let n = src.len();
    let mut i: usize = 0;
    while i < n
        invariant
            n == src@.len(),
            i <= n,
            dst@ =~= old(dst)@ + src@.take(i as int),
        decreases n - i,
    {
        dst.push(src[i].clone());
        proof {
            assert(src@.take(i + 1) =~= src@.take(i as int).push(src@[i as int]));
        }
        i = i + 1;
    }
    proof {
        assert(src@.take(n as int) =~= src@);
    }
}

fn extend_contents(dst: &mut Vec<Option<String>>, src: &Vec<Option<String>>)
    ensures
        final(dst)@ == old(dst)@ + src@,
{
    let n = src.len();
    let mut i: usize = 0;
    while i < n
        invariant
            n == src@.len(),
            i <= n,
            dst@ =~= old(dst)@ + src@.take(i as int),
        decreases n - i,
    {
        let entry: Option<String> = match &src[i] {
            Some(s) => Some(s.clone()),
            None => None,
        };
        dst.push(entry);
        proof {
            assert(src@.take(i + 1) =~= src@.take(i as int).push(src@[i as int]));
        }
        i = i + 1;
    }
    proof {
        assert(src@.take(n as int) =~= src@);
    }
}

impl ConcatSourceMapBuilder {
    pub open spec fn wf(self) -> bool {
        self.tokens.wf()
    }

    /// The builder's whole state as one value.
    pub open spec fn view(self) -> BuilderModel {
        BuilderModel {
            names: self.names@,
            sources: self.sources@,
            source_contents: self.source_contents@,
            tokens: self.tokens@,
            token_chunks: self.token_chunks@,
            prev_source_id: self.token_chunk_prev_source_id,
            prev_name_id: self.token_chunk_prev_name_id,
        }
    }

    /// An empty builder with room reserved up front; reserving changes no
    /// result, only allocation.
    pub fn with_capacity(
        names_len: usize,
        sources_len: usize,
        tokens_len: usize,
        token_chunks_len: usize,
    ) -> (r: ConcatSourceMapBuilder)
        ensures
            r.wf(),
            r@ == empty_model(),
    {
        let r = ConcatSourceMapBuilder {
            names: Vec::with_capacity(names_len),
            sources: Vec::with_capacity(sources_len),
            source_contents: Vec::with_capacity(sources_len),
            tokens: Tokens::with_capacity(tokens_len),
            token_chunks: Vec::with_capacity(token_chunks_len),
            token_chunk_prev_source_id: 0,
            token_chunk_prev_name_id: 0,
        };
        proof {
            assert(r@.names =~= empty_model().names);
            assert(r@.sources =~= empty_model().sources);
            assert(r@.source_contents =~= empty_model().source_contents);
            assert(r@.tokens =~= empty_model().tokens);
            assert(r@.token_chunks =~= empty_model().token_chunks);
        }
        r
    }

    /// An empty builder.
    pub fn new() -> (r: ConcatSourceMapBuilder)
        ensures
            r.wf(),
            r@ == empty_model(),
    {
        Self::with_capacity(0, 0, 0, 0)
    }

    /// Append one map: its names, sources and contents verbatim, its tokens
    /// re-addressed; the first token is dropped when it exactly repeats the
    /// token already at the end; one chunk snapshot is recorded.
    pub fn add_sourcemap(&mut self, sourcemap: &SourceMap, line_offset: u32)
        requires
            old(self).wf(),
            sourcemap.wf(),
            can_append(old(self)@, *sourcemap, line_offset),
        ensures
            final(self).wf(),
            final(self)@ == spec_add(old(self)@, *sourcemap, line_offset),
    {
        let ghost b0 = self@;
        let source_offset = self.sources.len() as u32;
        let name_offset = self.names.len() as u32;
        let start_token_idx = self.tokens.len() as u32;
        let chunk_prev_name_id = self.token_chunk_prev_name_id;
        let chunk_prev_source_id = self.token_chunk_prev_source_id;
        let prev_last = self.tokens.last();

        extend_strings(&mut self.sources, &sourcemap.sources);
        extend_contents(&mut self.source_contents, &sourcemap.source_contents);
        extend_strings(&mut self.names, &sourcemap.names);

        let ghost shifted = shifted_tokens(
            sourcemap.tokens@,
            line_offset,
            source_offset as int,
            name_offset as int,
        );
        let n = sourcemap.tokens.len();
        let mut skipped_first = false;
        let mut j: usize = 0;
        while j < n
            invariant
                self.wf(),
                n == sourcemap.tokens@.len(),
                sourcemap.wf(),
                j <= n,
                can_append(b0, *sourcemap, line_offset),
                b0.tokens == old(self).tokens@,
                source_offset == b0.sources.len(),
                name_offset == b0.names.len(),
                shifted == shifted_tokens(
                    sourcemap.tokens@,
                    line_offset,
                    source_offset as int,
                    name_offset as int,
                ),
                self.names@ == b0.names + sourcemap.names@,
                self.sources@ == b0.sources + sourcemap.sources@,
                self.source_contents@ == b0.source_contents + sourcemap.source_contents@,
                self.token_chunks@ == b0.token_chunks,
                prev_last == if b0.tokens.len() == 0 {
                    None::<Token>
                } else {
                    Some(b0.tokens.last())
                },
                j == 0 ==> !skipped_first,
                j > 0 ==> skipped_first == (b0.tokens.len() > 0 && shifted.len() > 0
                    && b0.tokens.last() == shifted.first()),
                self.tokens@ =~= b0.tokens + (if skipped_first {
                    shifted.subrange(1, j as int)
                } else {
                    shifted.take(j as int)
                }),
                self.token_chunk_prev_source_id == run_prev_source(
                    shifted,
                    j as int,
                    chunk_prev_source_id,
                ),
                self.token_chunk_prev_name_id == run_prev_name(
                    shifted,
                    j as int,
                    chunk_prev_name_id,
                ),
            decreases n - j,
        {
            let t = match sourcemap.tokens.get(j) {
                Some(t) => t,
                None => {
                    proof {
                        assert(false);
                    }
                    Token::new(0, 0, 0, 0, None, None)
                },
            };
            proof {
                assert(sourcemap.tokens@[j as int] == t);
            }
            let new_source: Option<u32> = match t.get_source_id() {
                Some(x) => {
                    let v = x + source_offset;
                    self.token_chunk_prev_source_id = v;
                    Some(v)
                },
                None => None,
            };
            let new_name: Option<u32> = match t.get_name_id() {
                Some(x) => {
                    let v = x + name_offset;
                    self.token_chunk_prev_name_id = v;
                    Some(v)
                },
                None => None,
            };
            let new_token = Token::new(
                t.dst_line + line_offset,
                t.dst_col,
                t.src_line,
                t.src_col,
                new_source,
                new_name,
            );
            proof {
                assert(new_token == shifted[j as int]);
            }
            let mut skip = false;
            if j == 0 {
                match prev_last {
                    Some(p) => {
                        if p == new_token {
                            skip = true;
                            skipped_first = true;
                        }
                    },
                    None => {},
                }
            }
            if !skip {
                self.tokens.push(new_token);
            }
            proof {
                if j == 0 {
                    if skipped_first {
                        assert(self.tokens@ =~= b0.tokens + shifted.subrange(1, 1));
                    } else {
                        assert(shifted.take(1) =~= shifted.take(0).push(shifted[0]));
                    }
                } else {
                    if skipped_first {
                        assert(shifted.subrange(1, j + 1) =~= shifted.subrange(1, j as int).push(
                            shifted[j as int],
                        ));
                    } else {
                        assert(shifted.take(j + 1) =~= shifted.take(j as int).push(
                            shifted[j as int],
                        ));
                    }
                }
            }
            j = j + 1;
        }
        let end_token_idx = self.tokens.len() as u32;
        let chunk = if start_token_idx == 0 {
            TokenChunk::new(0, end_token_idx, 0, 0, 0, 0, 0, 0)
        } else {
            let p = match prev_last {
                Some(p) => p,
                None => {
                    proof {
                        assert(false);
                    }
                    Token::new(0, 0, 0, 0, None, None)
                },
            };
            TokenChunk::new(
                start_token_idx,
                end_token_idx,
                p.dst_line,
                p.dst_col,
                p.src_line,
                p.src_col,
                chunk_prev_name_id,
                chunk_prev_source_id,
            )
        };
        self.token_chunks.push(chunk);
        proof {
            assert(shifted.take(n as int) =~= shifted);
            if skipped_first {
                assert(shifted.subrange(1, n as int) =~= shifted.drop_first());
            }
            assert(self@.tokens == spec_add(b0, *sourcemap, line_offset).tokens);
            assert(self@.token_chunks =~= spec_add(b0, *sourcemap, line_offset).token_chunks);
        }
    }

    /// One combined map from a list of maps and their line offsets; the same
    /// result, map for map, as adding them one by one.
    pub fn from_sourcemaps(sourcemap_and_line_offsets: &[(&SourceMap, u32)]) -> (r:
        ConcatSourceMapBuilder)
        requires
            can_append_all(empty_model(), sourcemap_and_line_offsets@, 0),
        ensures
            r.wf(),
            r@ == spec_add_all(empty_model(), sourcemap_and_line_offsets@, 0),
    {
        let mut builder = ConcatSourceMapBuilder::with_capacity(
            0,
            0,
            0,
            sourcemap_and_line_offsets.len(),
        );
        let n = sourcemap_and_line_offsets.len();
        let mut k: usize = 0;
        while k < n
            invariant
                n == sourcemap_and_line_offsets@.len(),
                k <= n,
                builder.wf(),
                can_append_all(builder@, sourcemap_and_line_offsets@, k as int),
                spec_add_all(builder@, sourcemap_and_line_offsets@, k as int) == spec_add_all(
                    empty_model(),
                    sourcemap_and_line_offsets@,
                    0,
                ),
            decreases n - k,
        {
            let (sourcemap, line_offset) = sourcemap_and_line_offsets[k];
            builder.add_sourcemap(sourcemap, line_offset);
            k = k + 1;
        }
        builder
    }

    /// The combined map: the gathered tables and tokens, and the chunk list
    /// recorded along the way.
    pub fn into_sourcemap(self) -> (r: SourceMap)
        ensures
            r == (SourceMap {
                file: None,
                names: r.names,
                source_root: None,
                sources: r.sources,
                source_contents: r.source_contents,
                tokens: r.tokens,
                token_chunks: r.token_chunks,
                x_google_ignore_list: None,
                debug_id: None,
            }),
            r.names@ == self.names@,
            r.sources@ == self.sources@,
            r.source_contents@ == self.source_contents@,
            r.tokens == self.tokens,
            r.token_chunks matches Some(cs) && cs@ == self.token_chunks@,
    {
        SourceMap::new(
            None,
            self.names,
            None,
            self.sources,
            self.source_contents,
            self.tokens,
            Some(self.token_chunks),
        )
    }
}

} // verus!
