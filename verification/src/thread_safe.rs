//! A deep, immutable copy of a map for publishing across threads, and a
//! reference-counted handle around it. Converting copies the data rather than
//! aliasing anything mutable; queries on the copy never change it.

use std::sync::Arc;

use vstd::prelude::*;

use crate::decode::JSONSourceMap;
use crate::encode::{clone_contents, clone_opt_string, clone_strings, clone_u32s, serializable,
    spec_json_document, spec_serialize};
use crate::error::Error;
use crate::sourcemap::SourceMap;
use crate::token::{Token, TokenChunk, Tokens};

verus! {

/// A map frozen for sharing: the same fields as [`SourceMap`], owned outright
/// so the value is safe to hand to other threads.
#[derive(Debug)]
pub struct ThreadSafeSourceMap {
    pub file: Option<String>,
    pub names: Vec<String>,
    pub source_root: Option<String>,
    pub sources: Vec<String>,
    pub source_contents: Vec<Option<String>>,
    pub tokens: Tokens,
    pub token_chunks: Option<Vec<TokenChunk>>,
    pub x_google_ignore_list: Option<Vec<u32>>,
    pub debug_id: Option<String>,
}

fn clone_chunks(v: &Vec<TokenChunk>) -> (r: Vec<TokenChunk>)
    ensures
        r@ == v@,
{
    let mut out: Vec<TokenChunk> = Vec::new();
    let n = v.len();
    let mut i: usize = 0;
    while i < n
        invariant
            n == v@.len(),
            i <= n,
            out@ =~= v@.take(i as int),
        decreases n - i,
    {
        out.push(v[i]);
        proof {
            assert(v@.take(i + 1) =~= v@.take(i as int).push(v@[i as int]));
        }
        i = i + 1;
    }
    proof {
        assert(v@.take(n as int) =~= v@);
    }
    out
}

impl ThreadSafeSourceMap {
    pub open spec fn wf(self) -> bool {
        self.tokens.wf()
    }

    /// The same data seen as a [`SourceMap`] value.
    pub open spec fn spec_map(self) -> SourceMap {
        SourceMap {
            file: self.file,
            names: self.names,
            source_root: self.source_root,
            sources: self.sources,
            source_contents: self.source_contents,
            tokens: self.tokens,
            token_chunks: self.token_chunks,
            x_google_ignore_list: self.x_google_ignore_list,
            debug_id: self.debug_id,
        }
    }

    /// Take a map over, field for field.
    pub fn from_sourcemap(sourcemap: SourceMap) -> (r: ThreadSafeSourceMap)
        ensures
            r == (ThreadSafeSourceMap {
                file: sourcemap.file,
                names: sourcemap.names,
                source_root: sourcemap.source_root,
                sources: sourcemap.sources,
                source_contents: sourcemap.source_contents,
                tokens: sourcemap.tokens,
                token_chunks: sourcemap.token_chunks,
                x_google_ignore_list: sourcemap.x_google_ignore_list,
                debug_id: sourcemap.debug_id,
            }),
    {
        ThreadSafeSourceMap {
            file: sourcemap.file,
            names: sourcemap.names,
            source_root: sourcemap.source_root,
            sources: sourcemap.sources,
            source_contents: sourcemap.source_contents,
            tokens: sourcemap.tokens,
            token_chunks: sourcemap.token_chunks,
            x_google_ignore_list: sourcemap.x_google_ignore_list,
            debug_id: sourcemap.debug_id,
        }
    }

    /// Decode a wire document straight into the shareable form; the same
    /// exact semantics as [`crate::decode::decode`], field for field.
    pub fn from_json(value: JSONSourceMap) -> (r: Result<ThreadSafeSourceMap, Error>)
        ensures
            value.version != 3 ==> (r matches Err(e) && e == Error::UnsupportedVersion),
            value.version == 3 ==> match crate::decode::first_bad_ignore_from(
                crate::decode::spec_ignore_list(value),
                value.sources@.len(),
                0,
            ) {
                Some(idx) => (r matches Err(e) && e == Error::BadSourceReference(idx)),
                None => match crate::decode::spec_decode_mapping(
                    crate::decode::encode_utf8_bytes(value.mappings@),
                    value.names@.len(),
                    value.sources@.len(),
                ) {
                    Err(e) => (r matches Err(e2) && e2 == e),
                    Ok(ts) => (r matches Ok(sm) && {
                        &&& sm.wf()
                        &&& sm.tokens@ == ts
                        &&& sm.file == value.file
                        &&& sm.names == value.names
                        &&& sm.source_root == value.source_root
                        &&& sm.sources == value.sources
                        &&& (match value.sources_content {
                            Some(c) => sm.source_contents == c,
                            None => sm.source_contents@.len() == 0,
                        })
                        &&& sm.token_chunks is None
                        &&& sm.x_google_ignore_list == value.x_google_ignore_list
                        &&& sm.debug_id == value.debug_id
                    }),
                },
            },
    {
        match SourceMap::from_json(value) {
            Ok(sm) => Ok(ThreadSafeSourceMap::from_sourcemap(sm)),
            Err(e) => Err(e),
        }
    }

    /// Decode JSON text straight into the shareable form.
    pub fn from_json_string(value: &str) -> (r: Result<ThreadSafeSourceMap, Error>)
        ensures
            r matches Ok(sm) ==> sm.wf() && sm.token_chunks is None,
    {
        match SourceMap::from_json_string(value) {
            Ok(sm) => Ok(ThreadSafeSourceMap::from_sourcemap(sm)),
            Err(e) => Err(e),
        }
    }

    /// A fresh, independent [`SourceMap`] with the same contents.
    pub fn to_sourcemap(&self) -> (r: SourceMap)
        requires
            self.wf(),
        ensures
            r.wf(),
            r.file == self.file,
            r.names@ == self.names@,
            r.source_root == self.source_root,
            r.sources@ == self.sources@,
            r.source_contents@ == self.source_contents@,
            r.tokens@ == self.tokens@,
            r.spec_chunks() == (match self.token_chunks {
                Some(cs) => Some(cs@),
                None => None::<Seq<TokenChunk>>,
            }),
            r.x_google_ignore_list is Some <==> self.x_google_ignore_list is Some,
            r.x_google_ignore_list matches Some(l) ==> l@ == self.x_google_ignore_list->0@,
            r.debug_id == self.debug_id,
    {
        let mut sm = SourceMap::new(
            clone_opt_string(&self.file),
            clone_strings(&self.names),
            clone_opt_string(&self.source_root),
            clone_strings(&self.sources),
            clone_contents(&self.source_contents),
            self.tokens.duplicate(),
            match &self.token_chunks {
                Some(cs) => Some(clone_chunks(cs)),
                None => None,
            },
        );
        sm.x_google_ignore_list = match &self.x_google_ignore_list {
            Some(l) => Some(clone_u32s(l)),
            None => None,
        };
        sm.debug_id = clone_opt_string(&self.debug_id);
        sm
    }

    /// Re-encode as a wire document, through a fresh copy.
    pub fn to_json(&self) -> (r: JSONSourceMap)
        requires
            self.wf(),
            serializable(
                self.tokens@,
                match self.token_chunks {
                    Some(cs) => Some(cs@),
                    None => None::<Seq<TokenChunk>>,
                },
            ),
        ensures
            r.version == 3,
            vstd::utf8::encode_utf8(r.mappings@) == spec_serialize(
                self.tokens@,
                match self.token_chunks {
                    Some(cs) => Some(cs@),
                    None => None::<Seq<TokenChunk>>,
                },
            ),
    {
        let sm = self.to_sourcemap();
        sm.to_json()
    }

    /// Write as one JSON document, through a fresh copy.
    pub fn to_json_string(&self) -> (r: String)
        requires
            self.wf(),
            serializable(
                self.tokens@,
                match self.token_chunks {
                    Some(cs) => Some(cs@),
                    None => None::<Seq<TokenChunk>>,
                },
            ),
        ensures
            r@ == spec_json_document(self.spec_map()),
    {
        let sm = self.to_sourcemap();
        proof {
            lemma_doc_from_views(sm, self.spec_map());
        }
        sm.to_json_string()
    }

    /// The JSON document wrapped as a base64 data URL, through a fresh copy.
    pub fn to_data_url(&self) -> (r: String)
        requires
            self.wf(),
            serializable(
                self.tokens@,
                match self.token_chunks {
                    Some(cs) => Some(cs@),
                    None => None::<Seq<TokenChunk>>,
                },
            ),
        ensures
            r@ == "data:application/json;charset=utf-8;base64,"@ + crate::outside::base64_of(
                vstd::utf8::encode_utf8(spec_json_document(self.spec_map())),
            ),
    {
        let sm = self.to_sourcemap();
        proof {
            lemma_doc_from_views(sm, self.spec_map());
        }
        sm.to_data_url()
    }

    pub fn get_file(&self) -> (r: Option<&String>)
        ensures
            match self.file {
                Some(_) => r matches Some(f) && f == &self.file->0,
                None => r is None,
            },
    {
        self.file.as_ref()
    }

    pub fn get_source_root(&self) -> (r: Option<&str>)
        ensures
            match self.source_root {
                Some(_) => r matches Some(s) && s@ == self.source_root->0@,
                None => r is None,
            },
    {
        match &self.source_root {
            Some(s) => Some(s.as_str()),
            None => None,
        }
    }

    pub fn get_x_google_ignore_list(&self) -> (r: Option<&[u32]>)
        ensures
            match self.x_google_ignore_list {
                Some(_) => r matches Some(l) && l@ == self.x_google_ignore_list->0@,
                None => r is None,
            },
    {
        match &self.x_google_ignore_list {
            Some(l) => Some(l.as_slice()),
            None => None,
        }
    }

    pub fn get_debug_id(&self) -> (r: Option<&str>)
        ensures
            match self.debug_id {
                Some(_) => r matches Some(d) && d@ == self.debug_id->0@,
                None => r is None,
            },
    {
        match &self.debug_id {
            Some(d) => Some(d.as_str()),
            None => None,
        }
    }

    pub fn get_names(&self) -> (r: &Vec<String>)
        ensures
            r == &self.names,
    {
        &self.names
    }

    pub fn get_sources(&self) -> (r: &Vec<String>)
        ensures
            r == &self.sources,
    {
        &self.sources
    }

    pub fn get_source_contents(&self) -> (r: &Vec<Option<String>>)
        ensures
            r == &self.source_contents,
    {
        &self.source_contents
    }

    pub fn get_token(&self, index: u32) -> (r: Option<Token>)
        requires
            self.wf(),
        ensures
            r == if index < self.tokens@.len() {
                Some(self.tokens@[index as int])
            } else {
                None::<Token>
            },
    {
        self.tokens.get(index as usize)
    }

    /// All tokens, by value, in stream order.
    pub fn get_tokens(&self) -> (r: Vec<Token>)
        requires
            self.wf(),
        ensures
            r@ == self.tokens@,
    {
        let n = self.tokens.len();
        let mut out: Vec<Token> = Vec::new();
        let mut i: usize = 0;
        while i < n
            invariant
                self.wf(),
                n == self.tokens@.len(),
                i <= n,
                out@ =~= self.tokens@.take(i as int),
            decreases n - i,
        {
            let token = match self.tokens.get(i) {
                Some(t) => t,
                None => {
                    proof {
                        assert(false);
                    }
                    Token::new(0, 0, 0, 0, None, None)
                },
            };
            out.push(token);
            proof {
                assert(self.tokens@.take(i + 1) =~= self.tokens@.take(i as int).push(
                    self.tokens@[i as int],
                ));
            }
            i = i + 1;
        }
        proof {
            assert(self.tokens@.take(n as int) =~= self.tokens@);
        }
        out
    }

    pub fn get_name(&self, id: u32) -> (r: Option<&String>)
        ensures
            r == if id < self.names@.len() {
                Some(&self.names[id as int])
            } else {
                None::<&String>
            },
    {
        if (id as usize) < self.names.len() {
            Some(&self.names[id as usize])
        } else {
            None
        }
    }

    pub fn get_source(&self, id: u32) -> (r: Option<&String>)
        ensures
            r == if id < self.sources@.len() {
                Some(&self.sources[id as int])
            } else {
                None::<&String>
            },
    {
        if (id as usize) < self.sources.len() {
            Some(&self.sources[id as usize])
        } else {
            None
        }
    }

    pub fn get_source_content(&self, id: u32) -> (r: Option<&String>)
        ensures
            match r {
                Some(c) => id < self.source_contents@.len() && (self.source_contents@[
                    id as int
                ] matches Some(x) && c == &x),
                None => id >= self.source_contents@.len() || self.source_contents@[
                    id as int
                ] is None,
            },
    {
        if (id as usize) < self.source_contents.len() {
            self.source_contents[id as usize].as_ref()
        } else {
            None
        }
    }
}

/// Two maps that agree on their contents, field view for field view, write
/// the same JSON document.
proof fn lemma_doc_from_views(a: SourceMap, b: SourceMap)
    requires
        a.file == b.file,
        a.source_root == b.source_root,
        a.names@ == b.names@,
        a.sources@ == b.sources@,
        a.source_contents@ == b.source_contents@,
        a.tokens@ == b.tokens@,
        a.spec_chunks() == b.spec_chunks(),
        a.x_google_ignore_list is Some <==> b.x_google_ignore_list is Some,
        a.x_google_ignore_list matches Some(l) ==> l@ == b.x_google_ignore_list->0@,
        a.debug_id == b.debug_id,
    ensures
        spec_json_document(a) == spec_json_document(b),
{
}

/// A reference-counted handle to a frozen map: cloning the handle is cheap,
/// and every clone reads the same immutable data.
#[derive(Debug, Clone)]
pub struct SharedSourceMap(pub Arc<ThreadSafeSourceMap>);

impl SharedSourceMap {
    /// Freeze a map and wrap it for sharing.
    pub fn new(sourcemap: SourceMap) -> (r: SharedSourceMap)
        ensures
            *r.0 == (ThreadSafeSourceMap {
                file: sourcemap.file,
                names: sourcemap.names,
                source_root: sourcemap.source_root,
                sources: sourcemap.sources,
                source_contents: sourcemap.source_contents,
                tokens: sourcemap.tokens,
                token_chunks: sourcemap.token_chunks,
                x_google_ignore_list: sourcemap.x_google_ignore_list,
                debug_id: sourcemap.debug_id,
            }),
    {
        SharedSourceMap(Arc::new(ThreadSafeSourceMap::from_sourcemap(sourcemap)))
    }

    /// Wrap an already frozen map.
    pub fn from_thread_safe(thread_safe: ThreadSafeSourceMap) -> (r: SharedSourceMap)
        ensures
            *r.0 == thread_safe,
    {
        SharedSourceMap(Arc::new(thread_safe))
    }

    /// The shared map itself.
    pub fn get(&self) -> (r: &ThreadSafeSourceMap)
        ensures
            r == &*self.0,
    {
        &*self.0
    }
}

} // verus!
