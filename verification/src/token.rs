use vstd::prelude::*;

verus! {

/// Sentinel standing for a missing source or name id inside the compact
/// storage. It is never a valid index: decoding rejects any id this large.
pub const INVALID_ID: u32 = 0xffff_ffff;

/// One mapping entry: a position in the generated output, optionally
/// correlated with a position in an original source and a name.
///
/// `src_line` and `src_col` are meaningless when there is no source id;
/// `name_id` is only ever present together with `source_id`.
#[derive(Debug, PartialEq, Eq, Clone, Copy, Structural)]
pub struct Token {
    pub dst_line: u32,
    pub dst_col: u32,
    pub src_line: u32,
    pub src_col: u32,
    pub source_id: u32,
    pub name_id: u32,
}

impl Token {
    pub open spec fn spec_source_id(self) -> Option<u32> {
        if self.source_id == INVALID_ID {
            None
        } else {
            Some(self.source_id)
        }
    }

    pub open spec fn spec_name_id(self) -> Option<u32> {
        if self.name_id == INVALID_ID {
            None
        } else {
            Some(self.name_id)
        }
    }

    pub fn new(
        dst_line: u32,
        dst_col: u32,
        src_line: u32,
        src_col: u32,
        source_id: Option<u32>,
        name_id: Option<u32>,
    ) -> (r: Token)
        ensures
            r == (Token {
                dst_line,
                dst_col,
                src_line,
                src_col,
                source_id: if source_id is Some { source_id->0 } else { INVALID_ID },
                name_id: if name_id is Some { name_id->0 } else { INVALID_ID },
            }),
    {
        Token {
            dst_line,
            dst_col,
            src_line,
            src_col,
            source_id: match source_id {
                Some(id) => id,
                None => INVALID_ID,
            },
            name_id: match name_id {
                Some(id) => id,
                None => INVALID_ID,
            },
        }
    }

    pub fn get_dst_line(&self) -> (r: u32)
        ensures
            r == self.dst_line,
    {
        self.dst_line
    }

    pub fn get_dst_col(&self) -> (r: u32)
        ensures
            r == self.dst_col,
    {
        self.dst_col
    }

    pub fn get_src_line(&self) -> (r: u32)
        ensures
            r == self.src_line,
    {
        self.src_line
    }

    pub fn get_src_col(&self) -> (r: u32)
        ensures
            r == self.src_col,
    {
        self.src_col
    }

    pub fn get_name_id(&self) -> (r: Option<u32>)
        ensures
            r == self.spec_name_id(),
    {
        if self.name_id == INVALID_ID {
            None
        } else {
            Some(self.name_id)
        }
    }

    pub fn get_source_id(&self) -> (r: Option<u32>)
        ensures
            r == self.spec_source_id(),
    {
        if self.source_id == INVALID_ID {
            None
        } else {
            Some(self.source_id)
        }
    }
}

/// Struct-of-arrays storage for a token stream: one array per field, the
/// sentinel `INVALID_ID` standing for an absent source or name id.
#[derive(Debug, Clone, Default, PartialEq, Eq)]
pub struct Tokens {
    dst_lines: Vec<u32>,
    dst_cols: Vec<u32>,
    src_lines: Vec<u32>,
    src_cols: Vec<u32>,
    source_ids: Vec<u32>,
    name_ids: Vec<u32>,
}

impl Tokens {
    /// The six arrays always advance together.
    pub closed spec fn wf(self) -> bool {
        &&& self.dst_cols@.len() == self.dst_lines@.len()
        &&& self.src_lines@.len() == self.dst_lines@.len()
        &&& self.src_cols@.len() == self.dst_lines@.len()
        &&& self.source_ids@.len() == self.dst_lines@.len()
        &&& self.name_ids@.len() == self.dst_lines@.len()
    }

    pub closed spec fn token_at(self, i: int) -> Token {
        Token {
            dst_line: self.dst_lines@[i],
            dst_col: self.dst_cols@[i],
            src_line: self.src_lines@[i],
            src_col: self.src_cols@[i],
            source_id: self.source_ids@[i],
            name_id: self.name_ids@[i],
        }
    }

    /// The token sequence this storage stands for.
    pub closed spec fn view(self) -> Seq<Token> {
        Seq::new(self.dst_lines@.len(), |i: int| self.token_at(i))
    }

    pub fn new() -> (r: Tokens)
        ensures
            r.wf(),
            r@ =~= Seq::<Token>::empty(),
    {
        Tokens {
            dst_lines: Vec::new(),
            dst_cols: Vec::new(),
            src_lines: Vec::new(),
            src_cols: Vec::new(),
            source_ids: Vec::new(),
            name_ids: Vec::new(),
        }
    }

    pub fn with_capacity(capacity: usize) -> (r: Tokens)
        ensures
            r.wf(),
            r@ =~= Seq::<Token>::empty(),
    {
        Tokens {
            dst_lines: Vec::with_capacity(capacity),
            dst_cols: Vec::with_capacity(capacity),
            src_lines: Vec::with_capacity(capacity),
            src_cols: Vec::with_capacity(capacity),
            source_ids: Vec::with_capacity(capacity),
            name_ids: Vec::with_capacity(capacity),
        }
    }

    pub fn push(&mut self, token: Token)
        requires
            old(self).wf(),
        ensures
            final(self).wf(),
            final(self)@ =~= old(self)@.push(token),
    {
        self.dst_lines.push(token.dst_line);
        self.dst_cols.push(token.dst_col);
        self.src_lines.push(token.src_line);
        self.src_cols.push(token.src_col);
        self.source_ids.push(token.source_id);
        self.name_ids.push(token.name_id);
    }

    pub fn push_raw(
        &mut self,
        dst_line: u32,
        dst_col: u32,
        src_line: u32,
        src_col: u32,
        source_id: Option<u32>,
        name_id: Option<u32>,
    )
        requires
            old(self).wf(),
        ensures
            final(self).wf(),
            final(self)@ =~= old(self)@.push(
                Token {
                    dst_line,
                    dst_col,
                    src_line,
                    src_col,
                    source_id: if source_id is Some { source_id->0 } else { INVALID_ID },
                    name_id: if name_id is Some { name_id->0 } else { INVALID_ID },
                },
            ),
    {
        let token = Token::new(dst_line, dst_col, src_line, src_col, source_id, name_id);
        self.push(token);
    }

    pub fn get(&self, index: usize) -> (r: Option<Token>)
        requires
            self.wf(),
        ensures
            r == if index < self@.len() {
                Some(self@[index as int])
            } else {
                None::<Token>
            },
    {
        if index >= self.dst_lines.len() {
            return None;
        }
        Some(Token {
            dst_line: self.dst_lines[index],
            dst_col: self.dst_cols[index],
            src_line: self.src_lines[index],
            src_col: self.src_cols[index],
            source_id: self.source_ids[index],
            name_id: self.name_ids[index],
        })
    }

    pub fn len(&self) -> (r: usize)
        ensures
            r == self@.len(),
    {
        self.dst_lines.len()
    }

    pub fn is_empty(&self) -> (r: bool)
        ensures
            r == (self@.len() == 0),
    {
        self.dst_lines.is_empty()
    }

    pub fn iter(&self) -> (r: TokensIter<'_>)
        requires
            self.wf(),
        ensures
            r.tokens == self,
            r.index == 0,
    {
        TokensIter { tokens: self, index: 0 }
    }

    pub fn last(&self) -> (r: Option<Token>)
        requires
            self.wf(),
        ensures
            r == if self@.len() == 0 {
                None::<Token>
            } else {
                Some(self@[self@.len() - 1])
            },
    {
        if self.is_empty() {
            None
        } else {
            self.get(self.len() - 1)
        }
    }

    pub fn reserve(&mut self, additional: usize)
        requires
            old(self).wf(),
        ensures
            final(self).wf(),
            final(self)@ =~= old(self)@,
    {
        self.dst_lines.reserve(additional);
        self.dst_cols.reserve(additional);
        self.src_lines.reserve(additional);
        self.src_cols.reserve(additional);
        self.source_ids.reserve(additional);
        self.name_ids.reserve(additional);
    }

    /// Drop spare capacity by rebuilding each column at its exact length.
    pub fn shrink_to_fit(&mut self)
        requires
            old(self).wf(),
        ensures
            final(self).wf(),
            final(self)@ =~= old(self)@,
    {
        let fresh = self.duplicate();
        *self = fresh;
    }

    /// A fresh store holding the same tokens.
    pub fn duplicate(&self) -> (r: Tokens)
        requires
            self.wf(),
        ensures
            r.wf(),
            r@ == self@,
    {
        let n = self.len();
        let mut out = Tokens::with_capacity(n);
        let mut i: usize = 0;
        while i < n
            invariant
                self.wf(),
                out.wf(),
                n == self@.len(),
                i <= n,
                out@ =~= self@.take(i as int),
            decreases n - i,
        {
            let t = match self.get(i) {
                Some(t) => t,
                None => {
                    proof {
                        assert(false);
                    }
                    Token::new(0, 0, 0, 0, None, None)
                },
            };
            out.push(t);
            proof {
                assert(self@.take(i + 1) =~= self@.take(i as int).push(self@[i as int]));
            }
            i = i + 1;
        }
        proof {
            assert(self@.take(n as int) =~= self@);
        }
        out
    }

    pub fn extend_from_slice(&mut self, tokens: &[Token])
        requires
            old(self).wf(),
        ensures
            final(self).wf(),
            final(self)@ =~= old(self)@ + tokens@,
    {
        self.reserve(tokens.len());
        let n = tokens.len();
        let mut i: usize = 0;
        while i < n
            invariant
                n == tokens@.len(),
                i <= n,
                self.wf(),
                self@ =~= old(self)@ + tokens@.take(i as int),
            decreases n - i,
        {
            self.push(tokens[i]);
            proof {
                assert(tokens@.take(i + 1) =~= tokens@.take(i as int).push(tokens@[i as int]));
            }
            i = i + 1;
        }
        proof {
            assert(tokens@.take(n as int) =~= tokens@);
        }
    }
}

/// A cursor over a [`Tokens`] store, handing tokens out by value.
pub struct TokensIter<'a> {
    pub tokens: &'a Tokens,
    pub index: usize,
}

impl<'a> TokensIter<'a> {
    /// The next token in order, or `None` once the stream is exhausted.
    pub fn next(&mut self) -> (r: Option<Token>)
        requires
            old(self).tokens.wf(),
        ensures
            final(self).tokens == old(self).tokens,
            r == if old(self).index < old(self).tokens@.len() {
                Some(old(self).tokens@[old(self).index as int])
            } else {
                None::<Token>
            },
            final(self).index == if old(self).index < old(self).tokens@.len() {
                old(self).index + 1
            } else {
                old(self).index as int
            },
    {
        // materialize the length so the index bump below is known in range
        let n = self.tokens.len();
        match self.tokens.get(self.index) {
            Some(token) => {
                self.index = self.index + 1;
                Some(token)
            },
            None => None,
        }
    }

    /// How many tokens are still to come.
    pub fn len(&self) -> (r: usize)
        requires
            self.tokens.wf(),
            self.index <= self.tokens@.len(),
        ensures
            r == self.tokens@.len() - self.index,
    {
        self.tokens.len() - self.index
    }
}

/// A contiguous half-open range `[start, end)` of token indices plus the
/// encoder state as it was before the range begins, so the encoder can resume
/// a chunk without re-reading earlier tokens.
#[derive(Debug, Clone, Copy, Default, PartialEq, Eq, Structural)]
pub struct TokenChunk {
    pub start: u32,
    pub end: u32,
    pub prev_dst_line: u32,
    pub prev_dst_col: u32,
    pub prev_src_line: u32,
    pub prev_src_col: u32,
    pub prev_name_id: u32,
    pub prev_source_id: u32,
}

impl TokenChunk {
    pub fn new(
        start: u32,
        end: u32,
        prev_dst_line: u32,
        prev_dst_col: u32,
        prev_src_line: u32,
        prev_src_col: u32,
        prev_name_id: u32,
        prev_source_id: u32,
    ) -> (r: TokenChunk)
        ensures
            r == (TokenChunk {
                start,
                end,
                prev_dst_line,
                prev_dst_col,
                prev_src_line,
                prev_src_col,
                prev_name_id,
                prev_source_id,
            }),
    {
        TokenChunk {
            start,
            end,
            prev_dst_line,
            prev_dst_col,
            prev_src_line,
            prev_src_col,
            prev_name_id,
            prev_source_id,
        }
    }
}

} // verus!
