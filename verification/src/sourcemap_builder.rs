//! An incremental builder: add names and sources (interned, so an equal
//! string gets its existing id back), append tokens, then freeze into a
//! [`SourceMap`].

use vstd::prelude::*;
use vstd::string::StringSliceAdditionalSpecFns;
use vstd::utf8::{encode_utf8, encode_utf8_decode_utf8};

use crate::sourcemap::SourceMap;
use crate::token::{TokenChunk, Tokens};

verus! {

/// Two string slices hold the same text.
fn str_eq(a: &str, b: &str) -> (r: bool)
    ensures
        r == (a@ == b@),
{
    let ab = a.as_bytes();
    let bb = b.as_bytes();
    proof {
        broadcast use encode_utf8_decode_utf8;

        if ab@ == bb@ {
            assert(vstd::utf8::decode_utf8(encode_utf8(a@)) == a@);
            assert(vstd::utf8::decode_utf8(encode_utf8(b@)) == b@);
        }
    }
    let n = ab.len();
    if n != bb.len() {
        proof {
            assert(a@ != b@);
        }
        return false;
    }
    let mut i: usize = 0;
    while i < n
        invariant
            n == ab@.len(),
            n == bb@.len(),
            i <= n,
            forall|j: int| 0 <= j < i ==> ab@[j] == bb@[j],
            ab@ == a.spec_bytes(),
            bb@ == b.spec_bytes(),
        decreases n - i,
    {
        if ab[i] != bb[i] {
            proof {
                assert(ab@ != bb@);
                assert(a@ != b@);
            }
            return false;
        }
        i = i + 1;
    }
    proof {
        assert(ab@ =~= bb@);
        broadcast use encode_utf8_decode_utf8;

        assert(vstd::utf8::decode_utf8(encode_utf8(a@)) == a@);
        assert(vstd::utf8::decode_utf8(encode_utf8(b@)) == b@);
    }
    true
}

/// The first index whose entry holds exactly the text `s`, scanning from `k`.
pub open spec fn first_index_of(table: Seq<String>, s: Seq<char>, k: int) -> Option<int>
    decreases table.len() - k,
{
    if k < 0 || k >= table.len() {
        None
    } else if table[k]@ == s {
        Some(k)
    } else {
        first_index_of(table, s, k + 1)
    }
}

/// Builds a map from parts: names and sources interned to small ids, tokens
/// appended in order.
#[derive(Debug, Default)]
pub struct SourceMapBuilder {
    pub file: Option<String>,
    pub names: Vec<String>,
    pub sources: Vec<String>,
    pub source_contents: Vec<Option<String>>,
    pub tokens: Tokens,
    pub token_chunks: Option<Vec<TokenChunk>>,
}

impl SourceMapBuilder {
    pub open spec fn wf(self) -> bool {
        self.tokens.wf()
    }

    /// An empty builder.
    pub fn new() -> (r: SourceMapBuilder)
        ensures
            r.wf(),
            r.file is None,
            r.names@.len() == 0,
            r.sources@.len() == 0,
            r.source_contents@.len() == 0,
            r.tokens@.len() == 0,
            r.token_chunks is None,
    {
        SourceMapBuilder {
            file: None,
            names: Vec::new(),
            sources: Vec::new(),
            source_contents: Vec::new(),
            tokens: Tokens::new(),
            token_chunks: None,
        }
    }

    /// Intern a name: the id it already has, or a fresh one at the end of
    /// the table.
    pub fn add_name(&mut self, name: &str) -> (r: u32)
        requires
            old(self).names@.len() < 0xffff_ffff,
        ensures
            *final(self) == (SourceMapBuilder { names: final(self).names, ..*old(self) }),
            match first_index_of(old(self).names@, name@, 0) {
                Some(id) => r == id && final(self).names@ == old(self).names@,
                None => {
                    &&& r == old(self).names@.len()
                    &&& final(self).names@.len() == old(self).names@.len() + 1
                    &&& final(self).names@ =~= old(self).names@.push(
                        final(self).names@[old(self).names@.len() as int],
                    )
                    &&& final(self).names@[old(self).names@.len() as int]@ == name@
                },
            },
    {
        let n = self.names.len();
        let mut j: usize = 0;
        while j < n
            invariant
                n == self.names@.len(),
                n < 0xffff_ffff,
                j <= n,
                *self == (SourceMapBuilder { names: self.names, ..*old(self) }),
                self.names@ == old(self).names@,
                first_index_of(self.names@, name@, 0) == first_index_of(
                    self.names@,
                    name@,
                    j as int,
                ),
            decreases n - j,
        {
            if str_eq(self.names[j].as_str(), name) {
                proof {
                    assert(first_index_of(self.names@, name@, j as int) == Some(j as int));
                }
                return j as u32;
            }
            j = j + 1;
        }
        self.names.push(name.to_owned());
        proof {
            assert(self.names@ =~= old(self).names@.push(self.names@[n as int]));
        }
        n as u32
    }

    /// Intern a source together with its content: the id the source already
    /// has, or a fresh one, in which case the content is stored beside it.
    pub fn add_source_and_content(&mut self, source: &str, source_content: &str) -> (r: u32)
        requires
            old(self).sources@.len() < 0xffff_ffff,
        ensures
            *final(self) == (SourceMapBuilder {
                sources: final(self).sources,
                source_contents: final(self).source_contents,
                ..*old(self)
            }),
            match first_index_of(old(self).sources@, source@, 0) {
                Some(id) => r == id && final(self).sources@ == old(self).sources@ && final(self).source_contents@ == old(self).source_contents@,
                None => {
                    &&& r == old(self).sources@.len()
                    &&& final(self).sources@.len() == old(self).sources@.len() + 1
                    &&& final(self).sources@[old(self).sources@.len() as int]@ == source@
                    &&& final(self).sources@.take(old(self).sources@.len() as int) == old(self).sources@
                    &&& final(self).source_contents@.len() == old(self).source_contents@.len() + 1
                    &&& final(self).source_contents@.take(old(self).source_contents@.len() as int)
                        == old(self).source_contents@
                    &&& (final(self).source_contents@[old(self).source_contents@.len() as int]
                        matches Some(c) && c@ == source_content@)
                },
            },
    {
        let n = self.sources.len();
        let mut j: usize = 0;
        while j < n
            invariant
                n == self.sources@.len(),
                n < 0xffff_ffff,
                j <= n,
                *self == (SourceMapBuilder {
                    sources: self.sources,
                    source_contents: self.source_contents,
                    ..*old(self)
                }),
                self.sources@ == old(self).sources@,
                self.source_contents@ == old(self).source_contents@,
                first_index_of(self.sources@, source@, 0) == first_index_of(
                    self.sources@,
                    source@,
                    j as int,
                ),
            decreases n - j,
        {
            if str_eq(self.sources[j].as_str(), source) {
                proof {
                    assert(first_index_of(self.sources@, source@, j as int) == Some(j as int));
                }
                return j as u32;
            }
            j = j + 1;
        }
        self.sources.push(source.to_owned());
        self.source_contents.push(Some(source_content.to_owned()));
        proof {
            assert(self.sources@.take(n as int) =~= old(self).sources@);
            assert(self.source_contents@.take(old(self).source_contents@.len() as int) =~= old(self).source_contents@);
        }
        n as u32
    }

    /// Append a source and its content without looking for a duplicate.
    pub fn set_source_and_content(&mut self, source: &str, source_content: &str) -> (r: u32)
        requires
            old(self).sources@.len() < 0xffff_ffff,
        ensures
            *final(self) == (SourceMapBuilder {
                sources: final(self).sources,
                source_contents: final(self).source_contents,
                ..*old(self)
            }),
            r == old(self).sources@.len(),
            final(self).sources@.len() == old(self).sources@.len() + 1,
            final(self).sources@[old(self).sources@.len() as int]@ == source@,
            final(self).sources@.take(old(self).sources@.len() as int) == old(self).sources@,
            final(self).source_contents@.len() == old(self).source_contents@.len() + 1,
            final(self).source_contents@.take(old(self).source_contents@.len() as int) == old(self).source_contents@,
            final(self).source_contents@[old(self).source_contents@.len() as int] matches Some(c)
                && c@ == source_content@,
    {
        let count = self.sources.len() as u32;
        self.sources.push(source.to_owned());
        self.source_contents.push(Some(source_content.to_owned()));
        proof {
            assert(self.sources@.take(old(self).sources@.len() as int) =~= old(self).sources@);
            assert(self.source_contents@.take(old(self).source_contents@.len() as int) =~= old(self).source_contents@);
        }
        count
    }

    /// Append one token.
    pub fn add_token(
        &mut self,
        dst_line: u32,
        dst_col: u32,
        src_line: u32,
        src_col: u32,
        src_id: Option<u32>,
        name_id: Option<u32>,
    )
        requires
            old(self).wf(),
        ensures
            final(self).wf(),
            *final(self) == (SourceMapBuilder { tokens: final(self).tokens, ..*old(self) }),
            final(self).tokens@ =~= old(self).tokens@.push(
                crate::token::Token {
                    dst_line,
                    dst_col,
                    src_line,
                    src_col,
                    source_id: if src_id is Some {
                        src_id->0
                    } else {
                        crate::token::INVALID_ID
                    },
                    name_id: if name_id is Some {
                        name_id->0
                    } else {
                        crate::token::INVALID_ID
                    },
                },
            ),
    {
        self.tokens.push_raw(dst_line, dst_col, src_line, src_col, src_id, name_id);
    }

    pub fn set_file(&mut self, file: &str)
        ensures
            *final(self) == (SourceMapBuilder { file: final(self).file, ..*old(self) }),
            final(self).file matches Some(f) && f@ == file@,
    {
        self.file = Some(file.to_owned());
    }

    /// Hand the builder a chunk list, for segmented re-encoding later.
    pub fn set_token_chunks(&mut self, token_chunks: Vec<TokenChunk>)
        ensures
            *final(self) == (SourceMapBuilder {
                token_chunks: Some(token_chunks),
                ..*old(self)
            }),
    {
        self.token_chunks = Some(token_chunks);
    }

    /// Freeze into a map.
    pub fn into_sourcemap(self) -> (r: SourceMap)
        ensures
            r == (SourceMap {
                file: self.file,
                names: self.names,
                source_root: None,
                sources: self.sources,
                source_contents: self.source_contents,
                tokens: self.tokens,
                token_chunks: self.token_chunks,
                x_google_ignore_list: None,
                debug_id: None,
            }),
    {
        SourceMap::new(
            self.file,
            self.names,
            None,
            self.sources,
            self.source_contents,
            self.tokens,
            self.token_chunks,
        )
    }
}

} // verus!
