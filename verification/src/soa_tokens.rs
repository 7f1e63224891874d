//! Struct-of-arrays token storage built in one pass from a token slice, for
//! callers that want the columnar layout without the incremental API of
//! [`Tokens`].

use vstd::prelude::*;

use crate::token::Token;

verus! {

/// Columnar token storage: one array per field, the sentinel [`INVALID_ID`]
/// standing for an absent source or name id.
#[derive(Debug, Clone, Default)]
pub struct SoaTokens {
    dst_lines: Vec<u32>,
    dst_cols: Vec<u32>,
    src_lines: Vec<u32>,
    src_cols: Vec<u32>,
    source_ids: Vec<u32>,
    name_ids: Vec<u32>,
}

impl SoaTokens {
    pub closed spec fn wf(self) -> bool {
        &&& self.dst_cols@.len() == self.dst_lines@.len()
        &&& self.src_lines@.len() == self.dst_lines@.len()
        &&& self.src_cols@.len() == self.dst_lines@.len()
        &&& self.source_ids@.len() == self.dst_lines@.len()
        &&& self.name_ids@.len() == self.dst_lines@.len()
    }

    pub closed spec fn token_at(self, i: int) -> Token {
        Token {
            dst_line: self.dst_lines@[i],
            dst_col: self.dst_cols@[i],
            src_line: self.src_lines@[i],
            src_col: self.src_cols@[i],
            source_id: self.source_ids@[i],
            name_id: self.name_ids@[i],
        }
    }

    /// The token sequence this storage stands for.
    pub closed spec fn view(self) -> Seq<Token> {
        Seq::new(self.dst_lines@.len(), |i: int| self.token_at(i))
    }

    /// Tear a token slice into its six columns.
    pub fn from_tokens(tokens: &[Token]) -> (r: SoaTokens)
        ensures
            r.wf(),
            r@ == tokens@,
    {
        let n = tokens.len();
        let mut dst_lines: Vec<u32> = Vec::with_capacity(n);
        let mut dst_cols: Vec<u32> = Vec::with_capacity(n);
        let mut src_lines: Vec<u32> = Vec::with_capacity(n);
        let mut src_cols: Vec<u32> = Vec::with_capacity(n);
        let mut source_ids: Vec<u32> = Vec::with_capacity(n);
        let mut name_ids: Vec<u32> = Vec::with_capacity(n);
        let mut i: usize = 0;
        while i < n
            invariant
                n == tokens@.len(),
                i <= n,
                dst_lines@.len() == i,
                dst_cols@.len() == i,
                src_lines@.len() == i,
                src_cols@.len() == i,
                source_ids@.len() == i,
                name_ids@.len() == i,
                forall|j: int|
                    0 <= j < i ==> #[trigger] tokens@[j] == (Token {
                        dst_line: dst_lines@[j],
                        dst_col: dst_cols@[j],
                        src_line: src_lines@[j],
                        src_col: src_cols@[j],
                        source_id: source_ids@[j],
                        name_id: name_ids@[j],
                    }),
            decreases n - i,
        {
            let token = tokens[i];
            dst_lines.push(token.dst_line);
            dst_cols.push(token.dst_col);
            src_lines.push(token.src_line);
            src_cols.push(token.src_col);
            source_ids.push(token.source_id);
            name_ids.push(token.name_id);
            i = i + 1;
        }
        let r = SoaTokens { dst_lines, dst_cols, src_lines, src_cols, source_ids, name_ids };
        proof {
            assert(r@ =~= tokens@);
        }
        r
    }

    pub fn len(&self) -> (r: usize)
        ensures
            r == self@.len(),
    {
        self.dst_lines.len()
    }

    pub fn is_empty(&self) -> (r: bool)
        ensures
            r == (self@.len() == 0),
    {
        self.dst_lines.is_empty()
    }

    pub fn get(&self, index: usize) -> (r: Option<Token>)
        requires
            self.wf(),
        ensures
            r == if index < self@.len() {
                Some(self@[index as int])
            } else {
                None::<Token>
            },
    {
        if index >= self.dst_lines.len() {
            return None;
        }
        Some(
            Token {
                dst_line: self.dst_lines[index],
                dst_col: self.dst_cols[index],
                src_line: self.src_lines[index],
                src_col: self.src_cols[index],
                source_id: self.source_ids[index],
                name_id: self.name_ids[index],
            },
        )
    }

    pub fn last(&self) -> (r: Option<Token>)
        requires
            self.wf(),
        ensures
            r == if self@.len() == 0 {
                None::<Token>
            } else {
                Some(self@[self@.len() - 1])
            },
    {
        if self.is_empty() {
            None
        } else {
            self.get(self.dst_lines.len() - 1)
        }
    }

    /// The generated line alone, without building the whole token.
    pub fn get_dst_line(&self, index: usize) -> (r: Option<u32>)
        requires
            self.wf(),
        ensures
            r == if index < self@.len() {
                Some(self@[index as int].dst_line)
            } else {
                None::<u32>
            },
    {
        if index >= self.dst_lines.len() {
            None
        } else {
            Some(self.dst_lines[index])
        }
    }

    /// The generated (line, column) key alone.
    pub fn get_dst_pos(&self, index: usize) -> (r: Option<(u32, u32)>)
        requires
            self.wf(),
        ensures
            r == if index < self@.len() {
                Some((self@[index as int].dst_line, self@[index as int].dst_col))
            } else {
                None::<(u32, u32)>
            },
    {
        if index >= self.dst_lines.len() {
            None
        } else {
            Some((self.dst_lines[index], self.dst_cols[index]))
        }
    }

    pub fn iter(&self) -> (r: SoaTokenIterator<'_>)
        requires
            self.wf(),
        ensures
            r.tokens == self,
            r.index == 0,
    {
        SoaTokenIterator { tokens: self, index: 0 }
    }
}

/// A cursor over an [`SoaTokens`] store, handing tokens out by value.
pub struct SoaTokenIterator<'a> {
    pub tokens: &'a SoaTokens,
    pub index: usize,
}

impl<'a> SoaTokenIterator<'a> {
    /// The next token in order, or `None` once the stream is exhausted.
    pub fn next(&mut self) -> (r: Option<Token>)
        requires
            old(self).tokens.wf(),
        ensures
            final(self).tokens == old(self).tokens,
            r == if old(self).index < old(self).tokens@.len() {
                Some(old(self).tokens@[old(self).index as int])
            } else {
                None::<Token>
            },
            final(self).index == if old(self).index < old(self).tokens@.len() {
                old(self).index + 1
            } else {
                old(self).index as int
            },
    {
        // materialize the length so the index bump below is known in range
        let n = self.tokens.len();
        match self.tokens.get(self.index) {
            Some(token) => {
                self.index = self.index + 1;
                Some(token)
            },
            None => None,
        }
    }

    /// How many tokens are still to come.
    pub fn len(&self) -> (r: usize)
        requires
            self.tokens.wf(),
            self.index <= self.tokens@.len(),
        ensures
            r == self.tokens@.len() - self.index,
    {
        self.tokens.len() - self.index
    }
}

} // verus!
