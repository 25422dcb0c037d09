//! The pipeline between the tokenizer and the line layout: it reads one token ahead
//! through a middleware, remembers how many characters of the source that token spans,
//! and advances the source only when the token is consumed.
use crate::parser::{is_first_token, token_len, Parser, Token};
use crate::plugin::{Bounds, Middleware, ProcessingState};
use vstd::prelude::*;

verus! {

/// Holds a middleware, a copy of it that reads ahead, the processing state, and the
/// token that was read ahead with the number of source characters that it spans.
#[derive(Clone, Debug)]
pub struct MiddlewareWrapper<'a, M> {
    lookahead: M,
    middleware: M,
    state: ProcessingState,
    peeked_token: Option<(usize, Token<'a>)>,
}

/// The number of characters that consuming a read-ahead token of `len` characters skips
/// in a source of `available` characters.
pub open spec fn consumed_len(len: nat, available: nat) -> nat {
    if len <= available {
        len
    } else {
        available
    }
}

impl<'a, M: Middleware<'a>> MiddlewareWrapper<'a, M> {
    /// The middleware.
    pub closed spec fn middleware(&self) -> M {
        self.middleware
    }

    /// The processing state.
    pub closed spec fn state(&self) -> ProcessingState {
        self.state
    }

    /// The token that was read ahead, with the number of source characters it spans.
    pub closed spec fn peeked(&self) -> Option<(nat, Token<'a>)> {
        match self.peeked_token {
            Some((n, t)) => Some((n as nat, t)),
            None => None,
        }
    }

    /// Wraps a middleware, in the measuring state, with no token read ahead.
    pub fn new(middleware: M) -> (r: Self)
        ensures
            r.middleware() == middleware,
            r.state() == ProcessingState::Measure,
            r.peeked() is None,
    {
        MiddlewareWrapper {
            lookahead: middleware.clone(),
            middleware,
            state: ProcessingState::Measure,
            peeked_token: None,
        }
    }

    /// Starts a new line: forgets the token that was read ahead.
    pub fn new_line(&mut self)
        ensures
            final(self).peeked() is None,
            final(self).state() == old(self).state(),
    {
        self.peeked_token = None;
        self.middleware.new_line();
        self.lookahead = self.middleware.clone();
    }

    /// Switches between measuring and rendering.
    pub fn set_state(&mut self, state: ProcessingState)
        ensures
            final(self).state() == state,
            final(self).peeked() == old(self).peeked(),
    {
        self.state = state;
    }

    /// Lets the middleware rewrite a token before it is drawn; while measuring, the token
    /// passes through unchanged.
    pub fn render_token(&mut self, token: Token<'a>) -> (r: Option<Token<'a>>)
        ensures
            old(self).state() == ProcessingState::Measure ==> r == Some(token),
            final(self).state() == old(self).state(),
            final(self).peeked() == old(self).peeked(),
    {
        match self.state {
            ProcessingState::Measure => Some(token),
            ProcessingState::Render => self.lookahead.render_token(token),
        }
    }

    /// Returns the token that was read ahead, or reads the next one from a copy of
    /// `source` through the middleware; `source` itself does not move.
    pub fn peek_token(&mut self, source: &mut Parser<'a>) -> (r: Option<Token<'a>>)
        ensures
            *final(source) == *old(source),
            final(self).state() == old(self).state(),
            old(self).peeked() matches Some((_, t)) ==> r == Some(t) && final(self).peeked()
                == old(self).peeked(),
            old(self).peeked() is None ==> {
                &&& (r is None <==> old(source)@.len() == 0)
                &&& r is None ==> final(self).peeked() is None
                &&& r matches Some(t) ==> final(self).peeked() matches Some((n, u)) && u == t
                    && 1 <= n <= old(source)@.len()
            },
            M::passes_through() && old(self).peeked() is None && old(source)@.len() > 0 ==> (
            final(self).peeked() matches Some((n, t)) && n == token_len(old(source)@)
                && is_first_token(t, old(source)@)),
    {
        if self.peeked_token.is_none() {
            let mut cloned = *source;
            let before = source.char_len();
            let token = self.lookahead.next_token(&mut cloned);
            let after = cloned.char_len();
            proof {
                if source@.len() > 0 {
                    crate::parser::lemma_token_len_bounds(source@);
                }
            }
            match token {
                Some(t) => {
                    self.peeked_token = Some((before - after, t));
                },
                None => {},
            }
        }
        match self.peeked_token {
            Some((_, t)) => Some(t),
            None => None,
        }
    }

    /// The number of source characters that the token read ahead spans (zero where
    /// there is none).
    pub fn peeked_len(&self) -> (r: usize)
        ensures
            match self.peeked() {
                Some((n, _)) => r == n,
                None => r == 0,
            },
    {
        match self.peeked_token {
            Some((n, _)) => n,
            None => 0,
        }
    }

    /// Consumes the token that was read ahead: advances `source` by the characters that
    /// it spans (all that are left, where fewer are).
    pub fn consume_peeked_token(&mut self, source: &mut Parser<'a>)
        ensures
            final(self).peeked() is None,
            final(self).state() == old(self).state(),
            old(self).peeked() matches Some((n, _)) ==> final(source)@ == old(source)@.skip(
                consumed_len(n, old(source)@.len()) as int,
            ),
            old(self).peeked() is None ==> *final(source) == *old(source),
    {
        match self.peeked_token {
            Some((n, _)) => source.consume(n),
            None => {},
        }
        self.peeked_token = None;
        self.middleware = self.lookahead.clone();
    }

    /// Replaces the token that was read ahead by one that spans `len` source characters.
    pub fn replace_peeked_token(&mut self, len: usize, token: Token<'a>)
        ensures
            final(self).peeked() == Some((len as nat, token)),
            final(self).state() == old(self).state(),
    {
        self.peeked_token = Some((len, token));
        self.lookahead = self.middleware.clone();
    }

    /// Forgets the token that was read ahead and tells the middleware that a render pass
    /// of the given text starts.
    pub fn on_start_render(&mut self, text: &'a str, bounds: Bounds)
        ensures
            final(self).peeked() is None,
            final(self).state() == old(self).state(),
    {
        self.peeked_token = None;
        self.middleware.on_start_render(text, bounds);
    }

    /// Tells the middleware that a piece of text was drawn.
    pub fn post_render(&mut self, text: Option<&'a str>, bounds: Bounds)
        ensures
            final(self).peeked() == old(self).peeked(),
            final(self).state() == old(self).state(),
    {
        self.lookahead.post_render(text, bounds);
    }
}

} // verus!
