//! The source map aggregate: string tables, the token store, and reverse
//! lookup by generated position.

use vstd::prelude::*;
use vstd::string::StringExecFns;

use crate::token::{Token, TokenChunk, Tokens};

verus! {

/// A decoded source map: its string tables, token stream, optional chunk
/// list for resumable re-encoding, ignore list and debug id.
///
/// Built once (by decoding or by a builder), then queried, re-encoded or
/// merged; none of those mutate it.
#[derive(Debug, Clone, Default)]
pub struct SourceMap {
    pub file: Option<String>,
    pub names: Vec<String>,
    pub source_root: Option<String>,
    pub sources: Vec<String>,
    pub source_contents: Vec<Option<String>>,
    pub tokens: Tokens,
    pub token_chunks: Option<Vec<TokenChunk>>,
    /// Indices into `sources` flagged as third-party code, for tooling to
    /// skip when stepping.
    pub x_google_ignore_list: Option<Vec<u32>>,
    pub debug_id: Option<String>,
}

impl SourceMap {
    pub open spec fn wf(self) -> bool {
        self.tokens.wf()
    }

    /// The chunk list as a sequence, when one is present.
    pub open spec fn spec_chunks(self) -> Option<Seq<TokenChunk>> {
        match self.token_chunks {
            Some(cs) => Some(cs@),
            None => None,
        }
    }

    pub fn new(
        file: Option<String>,
        names: Vec<String>,
        source_root: Option<String>,
        sources: Vec<String>,
        source_contents: Vec<Option<String>>,
        tokens: Tokens,
        token_chunks: Option<Vec<TokenChunk>>,
    ) -> (r: SourceMap)
        ensures
            r == (SourceMap {
                file,
                names,
                source_root,
                sources,
                source_contents,
                tokens,
                token_chunks,
                x_google_ignore_list: None,
                debug_id: None,
            }),
    {
        SourceMap {
            file,
            names,
            source_root,
            sources,
            source_contents,
            tokens,
            token_chunks,
            x_google_ignore_list: None,
            debug_id: None,
        }
    }

    /// Decode a wire document; exactly [`crate::decode::decode`].
    pub fn from_json(value: crate::decode::JSONSourceMap) -> (r: Result<SourceMap, crate::error::Error>)
        ensures
            value.version != 3 ==> (r matches Err(e) && e == crate::error::Error::UnsupportedVersion),
            value.version == 3 ==> match crate::decode::first_bad_ignore_from(
                crate::decode::spec_ignore_list(value),
                value.sources@.len(),
                0,
            ) {
                Some(idx) => (r matches Err(e) && e == crate::error::Error::BadSourceReference(
                    idx,
                )),
                None => match crate::decode::spec_decode_mapping(
                    crate::decode::encode_utf8_bytes(value.mappings@),
                    value.names@.len(),
                    value.sources@.len(),
                ) {
                    Err(e) => (r matches Err(e2) && e2 == e),
                    Ok(ts) => (r matches Ok(sm) && {
                        &&& sm.wf()
                        &&& sm.tokens@ == ts
                        &&& sm.file == value.file
                        &&& sm.names == value.names
                        &&& sm.source_root == value.source_root
                        &&& sm.sources == value.sources
                        &&& (match value.sources_content {
                            Some(c) => sm.source_contents == c,
                            None => sm.source_contents@.len() == 0,
                        })
                        &&& sm.token_chunks is None
                        &&& sm.x_google_ignore_list == value.x_google_ignore_list
                        &&& sm.debug_id == value.debug_id
                    }),
                },
            },
    {
        crate::decode::decode(value)
    }

    /// Decode a source map from JSON text; exactly
    /// [`crate::decode::decode_from_string`].
    pub fn from_json_string(value: &str) -> (r: Result<SourceMap, crate::error::Error>)
        ensures
            r matches Ok(sm) ==> sm.wf() && sm.token_chunks is None,
    {
        crate::decode::decode_from_string(value)
    }

    /// Re-encode this map as a wire document; exactly
    /// [`crate::encode::encode`].
    pub fn to_json(&self) -> (r: crate::decode::JSONSourceMap)
        requires
            self.wf(),
            crate::encode::serializable(self.tokens@, self.spec_chunks()),
        ensures
            r.version == 3,
            r.mappings@ == crate::encode::ascii_chars(
                crate::encode::spec_serialize(self.tokens@, self.spec_chunks()),
            ),
            vstd::utf8::encode_utf8(r.mappings@) == crate::encode::spec_serialize(
                self.tokens@,
                self.spec_chunks(),
            ),
            r.file == self.file,
            r.source_root == self.source_root,
            r.names@ == self.names@,
            r.sources@ == self.sources@,
            r.sources_content matches Some(c) && c@ == self.source_contents@,
            r.debug_id == self.debug_id,
            match self.x_google_ignore_list {
                Some(_) => r.x_google_ignore_list matches Some(l) && l@
                    == self.x_google_ignore_list->0@,
                None => r.x_google_ignore_list is None,
            },
    {
        crate::encode::encode(self)
    }

    /// Write this map as one JSON document; exactly
    /// [`crate::encode::encode_to_string`].
    pub fn to_json_string(&self) -> (r: String)
        requires
            self.wf(),
            crate::encode::serializable(self.tokens@, self.spec_chunks()),
        ensures
            r@ == crate::encode::spec_json_document(*self),
    {
        crate::encode::encode_to_string(self)
    }

    /// The JSON document wrapped as a base64 data URL.
    pub fn to_data_url(&self) -> (r: String)
        requires
            self.wf(),
            crate::encode::serializable(self.tokens@, self.spec_chunks()),
        ensures
            r@ == "data:application/json;charset=utf-8;base64,"@ + crate::outside::base64_of(
                vstd::utf8::encode_utf8(crate::encode::spec_json_document(*self)),
            ),
    {
        let json = self.to_json_string();
        let b64 = crate::outside::base64_encode(json.as_str().as_bytes());
        let mut out = String::new();
        out.append("data:application/json;charset=utf-8;base64,");
        out.append(b64.as_str());
        out
    }

    pub fn get_file(&self) -> (r: Option<&String>)
        ensures
            match self.file {
                Some(_) => r matches Some(f) && f == &self.file->0,
                None => r is None,
            },
    {
        self.file.as_ref()
    }

    pub fn set_file(&mut self, file: &str)
        ensures
            *final(self) == (SourceMap { file: final(self).file, ..*old(self) }),
            final(self).file matches Some(f) && f@ == file@,
    {
        self.file = Some(file.to_owned());
    }

    pub fn get_source_root(&self) -> (r: Option<&str>)
        ensures
            match self.source_root {
                Some(_) => r matches Some(s) && s@ == self.source_root->0@,
                None => r is None,
            },
    {
        match &self.source_root {
            Some(s) => Some(s.as_str()),
            None => None,
        }
    }

    pub fn get_x_google_ignore_list(&self) -> (r: Option<&[u32]>)
        ensures
            match self.x_google_ignore_list {
                Some(_) => r matches Some(l) && l@ == self.x_google_ignore_list->0@,
                None => r is None,
            },
    {
        match &self.x_google_ignore_list {
            Some(l) => Some(l.as_slice()),
            None => None,
        }
    }

    /// Replace the ignore list wholesale.
    pub fn set_x_google_ignore_list(&mut self, x_google_ignore_list: Vec<u32>)
        ensures
            *final(self) == (SourceMap {
                x_google_ignore_list: Some(x_google_ignore_list),
                ..*old(self)
            }),
    {
        self.x_google_ignore_list = Some(x_google_ignore_list);
    }

    pub fn set_debug_id(&mut self, debug_id: &str)
        ensures
            *final(self) == (SourceMap { debug_id: final(self).debug_id, ..*old(self) }),
            final(self).debug_id matches Some(d) && d@ == debug_id@,
    {
        self.debug_id = Some(debug_id.to_owned());
    }

    pub fn get_debug_id(&self) -> (r: Option<&str>)
        ensures
            match self.debug_id {
                Some(_) => r matches Some(d) && d@ == self.debug_id->0@,
                None => r is None,
            },
    {
        match &self.debug_id {
            Some(d) => Some(d.as_str()),
            None => None,
        }
    }

    pub fn get_names(&self) -> (r: &Vec<String>)
        ensures
            r == &self.names,
    {
        &self.names
    }

    /// Replace `sources` wholesale.
    pub fn set_sources(&mut self, sources: Vec<&str>)
        ensures
            *final(self) == (SourceMap { sources: final(self).sources, ..*old(self) }),
            final(self).sources@.len() == sources@.len(),
            forall|i: int|
                0 <= i < sources@.len() ==> final(self).sources@[i]@ == sources@[i]@,
    {
        let mut out: Vec<String> = Vec::new();
        let n = sources.len();
        let mut i: usize = 0;
        while i < n
            invariant
                n == sources@.len(),
                i <= n,
                out@.len() == i,
                forall|j: int| 0 <= j < i ==> out@[j]@ == sources@[j]@,
            decreases n - i,
        {
            out.push(sources[i].to_owned());
            i = i + 1;
        }
        self.sources = out;
    }

    pub fn get_sources(&self) -> (r: &Vec<String>)
        ensures
            r == &self.sources,
    {
        &self.sources
    }

    /// Replace `source_contents` wholesale.
    pub fn set_source_contents(&mut self, source_contents: Vec<Option<&str>>)
        ensures
            *final(self) == (SourceMap {
                source_contents: final(self).source_contents,
                ..*old(self)
            }),
            final(self).source_contents@.len() == source_contents@.len(),
            forall|i: int|
                0 <= i < source_contents@.len() ==> match #[trigger] source_contents@[i] {
                    Some(_) => final(self).source_contents@[i] matches Some(c) && c@
                        == source_contents@[i]->0@,
                    None => final(self).source_contents@[i] is None,
                },
    {
        let mut out: Vec<Option<String>> = Vec::new();
        let n = source_contents.len();
        let mut i: usize = 0;
        while i < n
            invariant
                n == source_contents@.len(),
                i <= n,
                out@.len() == i,
                forall|j: int|
                    0 <= j < i ==> match #[trigger] source_contents@[j] {
                        Some(_) => out@[j] matches Some(c) && c@ == source_contents@[j]->0@,
                        None => out@[j] is None,
                    },
            decreases n - i,
        {
            let entry: Option<String> = match source_contents[i] {
                Some(s) => Some(s.to_owned()),
                None => None,
            };
            out.push(entry);
            i = i + 1;
        }
        self.source_contents = out;
    }

    pub fn get_source_contents(&self) -> (r: &Vec<Option<String>>)
        ensures
            r == &self.source_contents,
    {
        &self.source_contents
    }

    pub fn get_token(&self, index: u32) -> (r: Option<Token>)
        requires
            self.wf(),
        ensures
            r == if index < self.tokens@.len() {
                Some(self.tokens@[index as int])
            } else {
                None::<Token>
            },
    {
        self.tokens.get(index as usize)
    }

    /// All tokens, by value, in stream order.
    pub fn get_tokens(&self) -> (r: Vec<Token>)
        requires
            self.wf(),
        ensures
            r@ == self.tokens@,
    {
        let n = self.tokens.len();
        let mut out: Vec<Token> = Vec::new();
        let mut i: usize = 0;
        while i < n
            invariant
                self.wf(),
                n == self.tokens@.len(),
                i <= n,
                out@ =~= self.tokens@.take(i as int),
            decreases n - i,
        {
            let token = match self.tokens.get(i) {
                Some(t) => t,
                None => {
                    proof {
                        assert(false);
                    }
                    Token::new(0, 0, 0, 0, None, None)
                },
            };
            out.push(token);
            proof {
                assert(self.tokens@.take(i + 1) =~= self.tokens@.take(i as int).push(
                    self.tokens@[i as int],
                ));
            }
            i = i + 1;
        }
        proof {
            assert(self.tokens@.take(n as int) =~= self.tokens@);
        }
        out
    }

    pub fn get_name(&self, id: u32) -> (r: Option<&String>)
        ensures
            r == if id < self.names@.len() {
                Some(&self.names[id as int])
            } else {
                None::<&String>
            },
    {
        if (id as usize) < self.names.len() {
            Some(&self.names[id as usize])
        } else {
            None
        }
    }

    pub fn get_source(&self, id: u32) -> (r: Option<&String>)
        ensures
            r == if id < self.sources@.len() {
                Some(&self.sources[id as int])
            } else {
                None::<&String>
            },
    {
        if (id as usize) < self.sources.len() {
            Some(&self.sources[id as usize])
        } else {
            None
        }
    }

    pub fn get_source_content(&self, id: u32) -> (r: Option<&String>)
        ensures
            match r {
                Some(c) => id < self.source_contents@.len() && (self.source_contents@[
                    id as int
                ] matches Some(x) && c == &x),
                None => id >= self.source_contents@.len() || self.source_contents@[
                    id as int
                ] is None,
            },
    {
        if (id as usize) < self.source_contents.len() {
            self.source_contents[id as usize].as_ref()
        } else {
            None
        }
    }

    pub fn get_source_and_content(&self, id: u32) -> (r: Option<(&String, &String)>)
        ensures
            match r {
                Some(p) => {
                    &&& id < self.sources@.len()
                    &&& p.0 == &self.sources[id as int]
                    &&& id < self.source_contents@.len()
                    &&& self.source_contents@[id as int] matches Some(c) && p.1 == &c
                },
                None => id >= self.sources@.len() || id >= self.source_contents@.len()
                    || self.source_contents@[id as int] is None,
            },
    {
        let source = match self.get_source(id) {
            Some(s) => s,
            None => {
                return None;
            },
        };
        let content = match self.get_source_content(id) {
            Some(c) => c,
            None => {
                return None;
            },
        };
        Some((source, content))
    }

    /// Split the token stream into one slice per generated line, from line 0
    /// to the last token's line; lines without tokens get an empty slice.
    pub fn generate_lookup_table(&self) -> (r: Vec<LineLookupTable<'_>>)
        requires
            self.wf(),
            lines_nondecreasing(self.tokens@),
            self.tokens@.len() > 0 ==> self.tokens@[self.tokens@.len() - 1].dst_line + 1
                <= usize::MAX,
        ensures
            r@.len() == if self.tokens@.len() == 0 {
                0int
            } else {
                self.tokens@[self.tokens@.len() - 1].dst_line + 1
            },
            forall|line: int|
                0 <= line < r@.len() ==> {
                    &&& (#[trigger] r@[line]).tokens == &self.tokens
                    &&& line_slice_ok(self.tokens@, line, r@[line].start as int, r@[line].end as int)
                },
    {
        let n = self.tokens.len();
        if n == 0 {
            return Vec::new();
        }
        let ghost ts = self.tokens@;
        let last_line: u32 = match self.tokens.get(n - 1) {
            Some(t) => t.dst_line,
            None => 0,
        };
        let mut table: Vec<LineLookupTable<'_>> = Vec::new();
        let mut prev_start_idx: usize = 0;
        let mut prev_dst_line: u32 = 0;
        let mut idx: usize = 0;
        while idx < n
            invariant
                self.wf(),
                ts == self.tokens@,
                n == ts.len(),
                0 < n,
                idx <= n,
                lines_nondecreasing(ts),
                last_line == ts[n - 1].dst_line,
                last_line + 1 <= usize::MAX,
                table@.len() == prev_dst_line,
                idx == 0 ==> prev_dst_line == 0 && prev_start_idx == 0,
                idx > 0 ==> prev_dst_line == ts[idx - 1].dst_line,
                prev_start_idx <= idx,
                forall|j: int|
                    prev_start_idx <= j < idx ==> (#[trigger] ts[j]).dst_line == prev_dst_line,
                forall|j: int|
                    0 <= j < prev_start_idx ==> (#[trigger] ts[j]).dst_line < prev_dst_line,
                forall|l: int|
                    0 <= l < table@.len() ==> (#[trigger] table@[l]).tokens == &self.tokens
                        && line_slice_ok(ts, l, table@[l].start as int, table@[l].end as int),
            decreases n - idx,
        {
            let dst_line: u32 = match self.tokens.get(idx) {
                Some(t) => t.dst_line,
                None => 0,
            };
            proof {
                assert(ts[idx as int].dst_line <= ts[n - 1].dst_line);
            }
            if dst_line != prev_dst_line {
                table.push(
                    LineLookupTable { tokens: &self.tokens, start: prev_start_idx, end: idx },
                );
                let mut gap: u32 = prev_dst_line + 1;
                while gap < dst_line
                    invariant
                        self.wf(),
                        ts == self.tokens@,
                        n == ts.len(),
                        idx < n,
                        prev_dst_line < gap <= dst_line,
                        dst_line == ts[idx as int].dst_line,
                        table@.len() == gap,
                        prev_start_idx <= idx,
                        forall|j: int|
                            prev_start_idx <= j < idx ==> (#[trigger] ts[j]).dst_line
                                == prev_dst_line,
                        forall|j: int|
                            0 <= j < prev_start_idx ==> (#[trigger] ts[j]).dst_line
                                < prev_dst_line,
                        lines_nondecreasing(ts),
                        forall|l: int|
                            0 <= l < table@.len() ==> (#[trigger] table@[l]).tokens == &self.tokens
                                && line_slice_ok(
                                ts,
                                l,
                                table@[l].start as int,
                                table@[l].end as int,
                            ),
                    decreases dst_line - gap,
                {
                    table.push(LineLookupTable { tokens: &self.tokens, start: 0, end: 0 });
                    gap = gap + 1;
                }
                prev_start_idx = idx;
                prev_dst_line = dst_line;
            }
            idx = idx + 1;
        }
        table.push(LineLookupTable { tokens: &self.tokens, start: prev_start_idx, end: n });
        table
    }
}

impl SourceMap {
    /// A lookup table fits this map when each entry points back at this
    /// map's tokens and carries exactly its line's slice.
    pub open spec fn table_ok(&self, table: Seq<LineLookupTable>) -> bool {
        forall|l: int|
            0 <= l < table.len() ==> {
                &&& (#[trigger] table[l]).tokens == &self.tokens
                &&& line_slice_ok(self.tokens@, l, table[l].start as int, table[l].end as int)
            }
    }

    /// Reverse lookup: the token that covers generated position (line, col),
    /// by greatest lower bound within that line; columns conceptually extend
    /// to the end of their line, lines do not extend downwards.
    pub fn lookup_token(
        &self,
        lookup_table: &[LineLookupTable],
        line: u32,
        col: u32,
    ) -> (r: Option<Token>)
        requires
            self.wf(),
            tokens_sorted(self.tokens@),
            self.table_ok(lookup_table@),
        ensures
            line >= lookup_table@.len() ==> r is None,
            line < lookup_table@.len() ==> {
                let e = lookup_table@[line as int];
                &&& (r is Some <==> has_lower_bound(
                    self.tokens@,
                    e.start as int,
                    e.end as int,
                    line,
                    col,
                ))
                &&& (r matches Some(t) ==> is_glb_answer(
                    self.tokens@,
                    e.start as int,
                    e.end as int,
                    line,
                    col,
                    t,
                ))
            },
    {
        if line as usize >= lookup_table.len() {
            return None;
        }
        let entry = lookup_table[line as usize];
        greatest_lower_bound_token(entry.tokens, entry.start, entry.end, (line, col))
    }

    /// As [`Self::lookup_token`], wrapped with this map's string tables.
    pub fn lookup_source_view_token(
        &self,
        lookup_table: &[LineLookupTable],
        line: u32,
        col: u32,
    ) -> (r: Option<SourceViewToken<'_>>)
        requires
            self.wf(),
            tokens_sorted(self.tokens@),
            self.table_ok(lookup_table@),
        ensures
            line >= lookup_table@.len() ==> r is None,
            line < lookup_table@.len() ==> {
                let e = lookup_table@[line as int];
                &&& (r is Some <==> has_lower_bound(
                    self.tokens@,
                    e.start as int,
                    e.end as int,
                    line,
                    col,
                ))
                &&& (r matches Some(v) ==> v.sourcemap == self && is_glb_answer(
                    self.tokens@,
                    e.start as int,
                    e.end as int,
                    line,
                    col,
                    v.token,
                ))
            },
    {
        match self.lookup_token(lookup_table, line, col) {
            Some(token) => Some(SourceViewToken::new(token, self)),
            None => None,
        }
    }

    pub fn get_source_view_token(&self, index: u32) -> (r: Option<SourceViewToken<'_>>)
        requires
            self.wf(),
        ensures
            match r {
                Some(v) => index < self.tokens@.len() && v.token == self.tokens@[index as int]
                    && v.sourcemap == self,
                None => index >= self.tokens@.len(),
            },
    {
        match self.tokens.get(index as usize) {
            Some(token) => Some(SourceViewToken::new(token, self)),
            None => None,
        }
    }

    /// Every token wrapped with this map's string tables, in stream order.
    pub fn get_source_view_tokens(&self) -> (r: Vec<SourceViewToken<'_>>)
        requires
            self.wf(),
        ensures
            r@.len() == self.tokens@.len(),
            forall|i: int|
                0 <= i < r@.len() ==> (#[trigger] r@[i]).token == self.tokens@[i]
                    && r@[i].sourcemap == self,
    {
        let n = self.tokens.len();
        let mut out: Vec<SourceViewToken<'_>> = Vec::new();
        let mut i: usize = 0;
        while i < n
            invariant
                self.wf(),
                n == self.tokens@.len(),
                i <= n,
                out@.len() == i,
                forall|j: int|
                    0 <= j < i ==> (#[trigger] out@[j]).token == self.tokens@[j]
                        && out@[j].sourcemap == self,
            decreases n - i,
        {
            let token = match self.tokens.get(i) {
                Some(t) => t,
                None => {
                    proof {
                        assert(false);
                    }
                    Token::new(0, 0, 0, 0, None, None)
                },
            };
            out.push(SourceViewToken::new(token, self));
            i = i + 1;
        }
        out
    }
}

/// A token bundled with the map it came from, so its source, content and
/// name strings are a call away.
#[derive(Debug, Clone, Copy)]
pub struct SourceViewToken<'a> {
    pub token: Token,
    pub sourcemap: &'a SourceMap,
}

impl<'a> SourceViewToken<'a> {
    pub fn new(token: Token, sourcemap: &'a SourceMap) -> (r: SourceViewToken<'a>)
        ensures
            r.token == token,
            r.sourcemap == sourcemap,
    {
        SourceViewToken { token, sourcemap }
    }

    pub fn get_dst_line(&self) -> (r: u32)
        ensures
            r == self.token.dst_line,
    {
        self.token.dst_line
    }

    pub fn get_dst_col(&self) -> (r: u32)
        ensures
            r == self.token.dst_col,
    {
        self.token.dst_col
    }

    pub fn get_src_line(&self) -> (r: u32)
        ensures
            r == self.token.src_line,
    {
        self.token.src_line
    }

    pub fn get_src_col(&self) -> (r: u32)
        ensures
            r == self.token.src_col,
    {
        self.token.src_col
    }

    pub fn get_name_id(&self) -> (r: Option<u32>)
        ensures
            r == self.token.spec_name_id(),
    {
        self.token.get_name_id()
    }

    pub fn get_source_id(&self) -> (r: Option<u32>)
        ensures
            r == self.token.spec_source_id(),
    {
        self.token.get_source_id()
    }

    pub fn get_name(&self) -> (r: Option<&String>)
        ensures
            r == if self.token.spec_name_id() matches Some(id) && id
                < self.sourcemap.names@.len() {
                Some(&self.sourcemap.names[self.token.name_id as int])
            } else {
                None::<&String>
            },
    {
        match self.token.get_name_id() {
            Some(id) => self.sourcemap.get_name(id),
            None => None,
        }
    }

    pub fn get_source(&self) -> (r: Option<&String>)
        ensures
            r == if self.token.spec_source_id() matches Some(id) && id
                < self.sourcemap.sources@.len() {
                Some(&self.sourcemap.sources[self.token.source_id as int])
            } else {
                None::<&String>
            },
    {
        match self.token.get_source_id() {
            Some(id) => self.sourcemap.get_source(id),
            None => None,
        }
    }

    pub fn get_source_content(&self) -> (r: Option<&String>)
        ensures
            match r {
                Some(c) => self.token.spec_source_id() matches Some(id) && id
                    < self.sourcemap.source_contents@.len() && (
                self.sourcemap.source_contents@[self.token.source_id as int] matches Some(x) && c
                    == &x),
                None => self.token.spec_source_id() is None || self.token.source_id
                    >= self.sourcemap.source_contents@.len()
                    || self.sourcemap.source_contents@[self.token.source_id as int] is None,
            },
    {
        match self.token.get_source_id() {
            Some(id) => self.sourcemap.get_source_content(id),
            None => None,
        }
    }

    pub fn get_source_and_content(&self) -> (r: Option<(&String, &String)>)
        ensures
            r matches Some(p) ==> {
                &&& self.token.spec_source_id() is Some
                &&& self.token.source_id < self.sourcemap.sources@.len()
                &&& p.0 == &self.sourcemap.sources[self.token.source_id as int]
                &&& self.token.source_id < self.sourcemap.source_contents@.len()
                &&& (self.sourcemap.source_contents@[self.token.source_id as int] matches Some(c)
                    && p.1 == &c)
            },
            r is None ==> self.token.spec_source_id() is None || self.token.source_id
                >= self.sourcemap.sources@.len() || self.token.source_id
                >= self.sourcemap.source_contents@.len()
                || self.sourcemap.source_contents@[self.token.source_id as int] is None,
    {
        match self.token.get_source_id() {
            Some(id) => self.sourcemap.get_source_and_content(id),
            None => None,
        }
    }

    /// The original position as `(source, line, column, name)`.
    pub fn to_tuple(&self) -> (r: (Option<&String>, u32, u32, Option<&String>))
        ensures
            r.1 == self.token.src_line,
            r.2 == self.token.src_col,
            r.0 == if self.token.spec_source_id() matches Some(id) && id
                < self.sourcemap.sources@.len() {
                Some(&self.sourcemap.sources[self.token.source_id as int])
            } else {
                None::<&String>
            },
            r.3 == if self.token.spec_name_id() matches Some(id) && id
                < self.sourcemap.names@.len() {
                Some(&self.sourcemap.names[self.token.name_id as int])
            } else {
                None::<&String>
            },
    {
        (self.get_source(), self.get_src_line(), self.get_src_col(), self.get_name())
    }
}

/// One generated line's slice of the token stream: the tokens with indices
/// in `[start, end)` all sit on that line.
#[derive(Debug, Clone, Copy)]
pub struct LineLookupTable<'a> {
    pub tokens: &'a Tokens,
    pub start: usize,
    pub end: usize,
}

/// `[start, end)` holds exactly the indices of the tokens on generated line
/// `line`.
pub open spec fn line_slice_ok(ts: Seq<Token>, line: int, start: int, end: int) -> bool {
    &&& 0 <= start <= end <= ts.len()
    &&& forall|j: int| start <= j < end ==> (#[trigger] ts[j]).dst_line == line
    &&& forall|j: int|
        0 <= j < ts.len() && (#[trigger] ts[j]).dst_line == line ==> start <= j < end
}

/// Generated lines never go backwards along the stream.
pub open spec fn lines_nondecreasing(ts: Seq<Token>) -> bool {
    forall|i: int, j: int|
        0 <= i < j < ts.len() ==> (#[trigger] ts[i]).dst_line <= (#[trigger] ts[j]).dst_line
}

/// The stream is ordered by generated (line, column).
///
/// Real-world maps satisfy this, and the stream invariant expects it, but
/// the wire format does not enforce the column part: a segment may step a
/// column backwards within its line, and decoding accepts that. Decoding
/// guarantees [`lines_nondecreasing`] only; full ordering is a supported
/// precondition of the lookup functions, not a consequence of decoding
/// arbitrary input.
pub open spec fn tokens_sorted(ts: Seq<Token>) -> bool {
    forall|i: int, j: int|
        0 <= i < j < ts.len() ==> key_le(#[trigger] ts[i], #[trigger] ts[j])
}

/// Lexicographic order between two tokens' generated positions.
pub open spec fn key_le(a: Token, b: Token) -> bool {
    a.dst_line < b.dst_line || (a.dst_line == b.dst_line && a.dst_col <= b.dst_col)
}

/// A token's generated position is at or before the queried one.
pub open spec fn key_le_pos(t: Token, line: u32, col: u32) -> bool {
    t.dst_line < line || (t.dst_line == line && t.dst_col <= col)
}

/// A token sits exactly at the queried generated position.
pub open spec fn key_eq_pos(t: Token, line: u32, col: u32) -> bool {
    t.dst_line == line && t.dst_col == col
}

/// A token's generated position is strictly before the queried one.
pub open spec fn key_lt_pos(t: Token, line: u32, col: u32) -> bool {
    key_le_pos(t, line, col) && !key_eq_pos(t, line, col)
}

/// The witness that pins down the greatest-lower-bound answer: `t` is the
/// token at `idx`; on an exact hit, `idx` opens the run of equal keys (the
/// first recorded mapping wins); otherwise nothing in the slice matches
/// exactly and everything after `idx` lies beyond the query.
pub open spec fn glb_answer(
    ts: Seq<Token>,
    start: int,
    end: int,
    line: u32,
    col: u32,
    idx: int,
    t: Token,
) -> bool {
    &&& start <= idx < end
    &&& t == ts[idx]
    &&& key_le_pos(ts[idx], line, col)
    &&& if key_eq_pos(ts[idx], line, col) {
        forall|j: int| start <= j < idx ==> !key_eq_pos(#[trigger] ts[j], line, col)
    } else {
        forall|j: int|
            start <= j < end ==> !key_eq_pos(#[trigger] ts[j], line, col) && (idx < j
                ==> !key_le_pos(#[trigger] ts[j], line, col))
    }
}

/// Some index of the slice witnesses the greatest-lower-bound answer `t`.
pub open spec fn is_glb_answer(
    ts: Seq<Token>,
    start: int,
    end: int,
    line: u32,
    col: u32,
    t: Token,
) -> bool {
    exists|idx: int| #[trigger] glb_answer(ts, start, end, line, col, idx, t)
}

/// Does any token of the slice lie at or before the queried position?
pub open spec fn has_lower_bound(ts: Seq<Token>, start: int, end: int, line: u32, col: u32) -> bool {
    exists|j: int| start <= j < end && key_le_pos(#[trigger] ts[j], line, col)
}

/// Whether the token at `i` sits exactly at the queried position.
fn key_at_eq(tokens: &Tokens, i: usize, line: u32, col: u32) -> (b: bool)
    requires
        tokens.wf(),
        i < tokens@.len(),
    ensures
        b == key_eq_pos(tokens@[i as int], line, col),
{
    match tokens.get(i) {
        Some(t) => t.dst_line == line && t.dst_col == col,
        None => false,
    }
}

/// Binary search for the query key over a sorted slice of the stream: an
/// exact hit returns the first token of its run of equal keys; otherwise the
/// last token before the query; `None` when nothing lies at or before it.
pub fn greatest_lower_bound_token(
    tokens: &Tokens,
    start: usize,
    end: usize,
    key: (u32, u32),
) -> (r: Option<Token>)
    requires
        tokens.wf(),
        start <= end <= tokens@.len(),
        forall|i: int, j: int|
            start <= i < j < end ==> key_le(#[trigger] tokens@[i], #[trigger] tokens@[j]),
    ensures
        r is Some <==> has_lower_bound(tokens@, start as int, end as int, key.0, key.1),
        r matches Some(t) ==> is_glb_answer(tokens@, start as int, end as int, key.0, key.1, t),
        r is None ==> forall|j: int|
            start <= j < end ==> !key_le_pos(#[trigger] tokens@[j], key.0, key.1),
{
    let ghost ts = tokens@;
    if start >= end {
        return None;
    }
    let mut left = start;
    let mut right = end;
    while left < right
        invariant
            tokens.wf(),
            ts == tokens@,
            start <= left <= right <= end <= ts.len(),
            forall|i: int, j: int|
                start <= i < j < end ==> key_le(#[trigger] ts[i], #[trigger] ts[j]),
            forall|j: int| start <= j < left ==> key_lt_pos(#[trigger] ts[j], key.0, key.1),
            forall|j: int| right <= j < end ==> !key_le_pos(#[trigger] ts[j], key.0, key.1),
        decreases right - left,
    {
        let mid = left + (right - left) / 2;
        let t = match tokens.get(mid) {
            Some(t) => t,
            None => {
                proof {
                    assert(false);
                }
                Token::new(0, 0, 0, 0, None, None)
            },
        };
        if t.dst_line < key.0 || (t.dst_line == key.0 && t.dst_col < key.1) {
            left = mid + 1;
        } else if t.dst_line == key.0 && t.dst_col == key.1 {
            let mut run_start = mid;
            while run_start > start && key_at_eq(tokens, run_start - 1, key.0, key.1)
                invariant
                    tokens.wf(),
                    ts == tokens@,
                    start <= run_start <= mid < end <= ts.len(),
                    forall|i: int, j: int|
                        start <= i < j < end ==> key_le(#[trigger] ts[i], #[trigger] ts[j]),
                    key_eq_pos(ts[run_start as int], key.0, key.1),
                decreases run_start,
            {
                run_start = run_start - 1;
            }
            proof {
                if run_start > start {
                    assert(key_le(ts[run_start - 1], ts[run_start as int]));
                    assert(key_lt_pos(ts[run_start - 1], key.0, key.1));
                    assert(forall|j: int|
                        start <= j < run_start - 1 ==> key_le(
                            #[trigger] ts[j],
                            ts[run_start - 1],
                        ));
                }
                assert(forall|j: int|
                    start <= j < run_start ==> !key_eq_pos(#[trigger] ts[j], key.0, key.1));
                assert(glb_answer(
                    ts,
                    start as int,
                    end as int,
                    key.0,
                    key.1,
                    run_start as int,
                    ts[run_start as int],
                ));
                assert(is_glb_answer(
                    ts,
                    start as int,
                    end as int,
                    key.0,
                    key.1,
                    ts[run_start as int],
                ));
            }
            return tokens.get(run_start);
        } else {
            proof {
                assert(!key_le_pos(ts[mid as int], key.0, key.1));
                assert(forall|j: int|
                    mid <= j < end ==> !key_le_pos(#[trigger] ts[j], key.0, key.1)) by {
                    assert(forall|j: int|
                        mid < j < end ==> key_le(ts[mid as int], #[trigger] ts[j]));
                }
            }
            right = mid;
        }
    }
    if left > start {
        proof {
            assert(key_lt_pos(ts[left - 1], key.0, key.1));
            assert(glb_answer(
                ts,
                start as int,
                end as int,
                key.0,
                key.1,
                left - 1,
                ts[left - 1],
            ));
            assert(is_glb_answer(ts, start as int, end as int, key.0, key.1, ts[left - 1]));
        }
        tokens.get(left - 1)
    } else {
        None
    }
}

} // verus!
