//! The token sequence that scanning yields.
use crate::modules::tokens::{token_views, AnalyzedToken, AnalyzedTokenView};
use vstd::prelude::*;

verus! {

/// The tokens of one input, in source order. The sequence never changes
/// after construction.
#[derive(Debug, Clone)]
pub struct TokenStream {
    token_list: Vec<AnalyzedToken>,
}

impl View for TokenStream {
    type V = Seq<AnalyzedTokenView>;

    open spec fn view(&self) -> Seq<AnalyzedTokenView> {
        token_views(self.tokens())
    }
}

impl TokenStream {
    /// The tokens that the stream holds.
    pub closed spec fn tokens(&self) -> Seq<AnalyzedToken> {
        self.token_list@
    }

    /// A stream over `list`.
    pub fn new(list: Vec<AnalyzedToken>) -> (stream: TokenStream)
        ensures
            stream.tokens() == list@,
            stream@ == token_views(list@),
    {
        TokenStream { token_list: list }
    }

    /// The number of tokens.
    pub fn len(&self) -> (n: usize)
        ensures
            n == self.tokens().len(),
            n == self@.len(),
    {
        self.token_list.len()
    }

    /// A pass over the tokens that starts at the first one. Every call
    /// starts a new pass over the same sequence.
    pub fn iter(&self) -> (pass: TokenStreamIter<'_>)
        ensures
            pass.tokens() == self.tokens(),
            token_views(pass.tokens()) == self@,
            pass.position() == 0,
    {
        TokenStreamIter { token_list: self.token_list.as_slice(), index: 0 }
    }
}

/// A forward pass over the tokens of a stream.
#[derive(Debug, Clone)]
pub struct TokenStreamIter<'a> {
    token_list: &'a [AnalyzedToken],
    index: usize,
}

impl<'a> TokenStreamIter<'a> {
    /// The tokens that the pass runs over.
    pub closed spec fn tokens(&self) -> Seq<AnalyzedToken> {
        self.token_list@
    }

    /// The number of tokens already handed out.
    pub closed spec fn position(&self) -> nat {
        self.index as nat
    }

    /// The next token and one step forward, or nothing once every token
    /// has been handed out.
    pub fn next(&mut self) -> (item: Option<&'a AnalyzedToken>)
        ensures
            final(self).tokens() == old(self).tokens(),
            match item {
                Some(token) => {
                    &&& old(self).position() < old(self).tokens().len()
                    &&& *token == old(self).tokens()[old(self).position() as int]
                    &&& final(self).position() == old(self).position() + 1
                },
                None => {
                    &&& old(self).position() >= old(self).tokens().len()
                    &&& final(self).position() == old(self).position()
                },
            },
    {
        if self.index >= self.token_list.len() {
            None
        } else {
            let item = &self.token_list[self.index];
            self.index += 1;
            Some(item)
        }
    }
}

} // verus!
