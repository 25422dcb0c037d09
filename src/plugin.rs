//! Plugins allow changing how text is laid out: they see each token before the layout
//! consumes it, may rewrite it, and are told when lines and render passes start and end.
use crate::parser::{is_first_token, token_len, Parser, Token};
use vstd::prelude::*;

verus! {

/// The pass that text is being processed in.
#[derive(Clone, Copy, Debug, PartialEq, Eq, Hash)]
pub enum ProcessingState {
    /// Geometry only: tokens pass through unchanged.
    Measure,
    /// Drawing: the plugin may rewrite tokens before they are drawn.
    Render,
}

/// The pixel rectangle that a piece of text was drawn into.
#[derive(Clone, Copy, Debug, PartialEq, Eq)]
pub struct Bounds {
    /// Left edge.
    pub x: i32,
    /// Top edge.
    pub y: i32,
    /// Width in pixels.
    pub width: u32,
    /// Height in pixels.
    pub height: u32,
}

/// Hooks that a plugin can implement. Every hook has a default that does nothing, or
/// passes its input through, so a plugin implements only what it needs.
pub trait Middleware<'a>: Clone {
    /// Called when a new line is started.
    fn new_line(&mut self) {
    }

    /// Whether `next_token` hands on the next token of the source unchanged, as its
    /// default does. A plugin that generates tokens of its own says no.
    open spec fn passes_through() -> bool {
        true
    }

    /// Generates the next token. The plugin may read any number of tokens from `source`
    /// to build it; it returns nothing exactly when `source` is empty, and consumes at
    /// least one character whenever it returns a token.
    fn next_token(&mut self, source: &mut Parser<'a>) -> (r: Option<Token<'a>>)
        ensures
            Self::passes_through() && old(source)@.len() > 0 ==> (r matches Some(t)
                && is_first_token(t, old(source)@) && final(source)@ == old(source)@.skip(
                token_len(old(source)@) as int,
            )),
            r is None <==> old(source)@.len() == 0,
            r is Some ==> final(source)@.len() < old(source)@.len(),
            final(source)@.len() <= old(source)@.len(),
            final(source)@ == old(source)@.skip(old(source)@.len() - final(source)@.len()),
    {
        source.next()
    }

    /// Modifies the current token immediately before it is rendered. The returned token
    /// should be of the same kind as the input.
    fn render_token(&mut self, token: Token<'a>) -> Option<Token<'a>> {
        Some(token)
    }

    /// Called after a piece of text is rendered.
    fn post_render(&mut self, text: Option<&'a str>, bounds: Bounds) {
    }

    /// Called before a render pass of the given text in the given area starts.
    fn on_start_render(&mut self, text: &'a str, bounds: Bounds) {
    }

    /// Called after a render pass has finished.
    fn on_rendering_finished(&mut self) {
    }
}

/// Placeholder type when no middleware is used.
#[derive(Clone, Copy, Debug, Default)]
pub struct NoMiddleware;

impl NoMiddleware {
    /// Creates the placeholder.
    pub fn new() -> (r: Self) {
        NoMiddleware
    }
}

impl<'a> Middleware<'a> for NoMiddleware {

}

/// Placeholder type when no plugin is used.
#[derive(Clone, Copy, Debug, Default)]
pub struct NoPlugin;

impl NoPlugin {
    /// Creates the placeholder.
    pub fn new() -> (r: Self) {
        NoPlugin
    }
}

impl<'a> Middleware<'a> for NoPlugin {

}

/// Plugin marker trait: every type with the plugin hooks is a plugin.
pub trait PluginMarker<'a>: Middleware<'a> {

}

impl<'a, T: Middleware<'a>> PluginMarker<'a> for T {

}

/// Holds a plugin, the processing state and the token that was read ahead. Reading a
/// token ahead advances the source past it; the token stays here until it is consumed,
/// and may be consumed in part.
#[derive(Debug)]
pub struct PluginWrapper<'a, M> {
    plugin: M,
    state: ProcessingState,
    peeked_token: Option<Token<'a>>,
}

/// The text left after skipping `n` characters of `s`, or none where `s` is shorter.
pub open spec fn skip_chars(s: Seq<char>, n: nat) -> Seq<char> {
    if n <= s.len() {
        s.skip(n as int)
    } else {
        seq![]
    }
}

impl<'a, M> PluginWrapper<'a, M> {
    /// The plugin.
    pub closed spec fn plugin(&self) -> M {
        self.plugin
    }

    /// The processing state.
    pub closed spec fn state(&self) -> ProcessingState {
        self.state
    }

    /// The token that was read ahead and not yet consumed.
    pub closed spec fn peeked(&self) -> Option<Token<'a>> {
        self.peeked_token
    }

    /// Wraps a plugin, in the measuring state, with no token read ahead.
    pub fn new(plugin: M) -> (r: Self)
        ensures
            r.plugin() == plugin,
            r.state() == ProcessingState::Measure,
            r.peeked() is None,
    {
        PluginWrapper { plugin, state: ProcessingState::Measure, peeked_token: None }
    }

    /// Returns the plugin.
    pub fn into_inner(self) -> (r: M)
        ensures
            r == self.plugin(),
    {
        self.plugin
    }
}

impl<'a, M: PluginMarker<'a>> PluginWrapper<'a, M> {
    /// Tells the plugin that a new line starts.
    pub fn new_line(&mut self)
        ensures
            final(self).state() == old(self).state(),
            final(self).peeked() == old(self).peeked(),
    {
        self.plugin.new_line();
    }

    /// Switches between measuring and rendering.
    pub fn set_state(&mut self, state: ProcessingState)
        ensures
            final(self).state() == state,
            final(self).peeked() == old(self).peeked(),
            final(self).plugin() == old(self).plugin(),
    {
        self.state = state;
    }

    /// Lets the plugin rewrite a token before it is drawn; while measuring, the token
    /// passes through unchanged.
    pub fn render_token(&mut self, token: Token<'a>) -> (r: Option<Token<'a>>)
        ensures
            old(self).state() == ProcessingState::Measure ==> r == Some(token) && *final(self)
                == *old(self),
            final(self).state() == old(self).state(),
            final(self).peeked() == old(self).peeked(),
    {
        match self.state {
            ProcessingState::Measure => Some(token),
            ProcessingState::Render => self.plugin.render_token(token),
        }
    }

    /// Returns the token that was read ahead, or reads the next one through the plugin.
    pub fn peek_token(&mut self, source: &mut Parser<'a>) -> (r: Option<Token<'a>>)
        ensures
            final(self).state() == old(self).state(),
            final(self).peeked() == r,
            final(source)@.len() <= old(source)@.len(),
            old(self).peeked() is Some ==> r == old(self).peeked() && *final(source) == *old(
                source,
            ),
            old(self).peeked() is None ==> {
                &&& (r is None <==> old(source)@.len() == 0)
                &&& r is Some ==> final(source)@.len() < old(source)@.len()
                &&& final(source)@ == old(source)@.skip(
                    old(source)@.len() - final(source)@.len(),
                )
            },
    {
        if self.peeked_token.is_none() {
            self.peeked_token = self.plugin.next_token(source);
        }
        self.peeked_token
    }

    /// Drops the token that was read ahead.
    pub fn consume_peeked_token(&mut self)
        ensures
            final(self).peeked() is None,
            final(self).state() == old(self).state(),
            final(self).plugin() == old(self).plugin(),
    {
        self.peeked_token = None;
    }

    /// Consumes the first `len` characters of the token that was read ahead, which must be
    /// a whitespace run or a word; what is left of it stays read ahead.
    pub fn consume_partial(&mut self, len: usize)
        requires
            match old(self).peeked() {
                Some(Token::Whitespace(count, _)) => len <= count,
                Some(Token::Word(_)) => true,
                _ => false,
            },
        ensures
            final(self).state() == old(self).state(),
            final(self).plugin() == old(self).plugin(),
            match old(self).peeked() {
                Some(Token::Whitespace(count, seq)) => final(self).peeked() matches Some(
                    Token::Whitespace(c, s),
                ) && c == count - len && s@ == skip_chars(seq@, len as nat),
                Some(Token::Word(w)) => final(self).peeked() matches Some(Token::Word(s)) && s@
                    == skip_chars(w@, len as nat),
                _ => false,
            },
    {
        let token = match self.peeked_token {
            Some(Token::Whitespace(count, seq)) => Token::Whitespace(
                count - len as u32,
                skip_str(seq, len),
            ),
            Some(Token::Word(w)) => Token::Word(skip_str(w, len)),
            _ => {
                proof {
                    assert(false);
                }
                return ;
            },
        };
        self.peeked_token = Some(token);
    }

    /// Drops the token that was read ahead and tells the plugin that a render pass of
    /// the given text starts.
    pub fn on_start_render(&mut self, text: &'a str, bounds: Bounds)
        ensures
            final(self).peeked() is None,
            final(self).state() == old(self).state(),
    {
        self.peeked_token = None;
        self.plugin.on_start_render(text, bounds);
    }

    /// Tells the plugin that the render pass has finished.
    pub fn on_rendering_finished(&mut self)
        ensures
            final(self).peeked() == old(self).peeked(),
            final(self).state() == old(self).state(),
    {
        self.plugin.on_rendering_finished();
    }

    /// Tells the plugin that a piece of text was drawn.
    pub fn post_render(&mut self, text: Option<&'a str>, bounds: Bounds)
        ensures
            final(self).peeked() == old(self).peeked(),
            final(self).state() == old(self).state(),
    {
        self.plugin.post_render(text, bounds);
    }
}

/// The text left after skipping `n` characters of `s`.
pub(crate) fn skip_str<'a>(s: &'a str, n: usize) -> (r: &'a str)
    ensures
        r@ == skip_chars(s@, n as nat),
{
    let len = s.unicode_len();
    if n <= len {
        let r = s.substring_char(n, len);
        assert(r@ =~= s@.skip(n as int));
        r
    } else {
        let r = s.substring_char(len, len);
        assert(r@ =~= Seq::<char>::empty());
        r
    }
}

} // verus!
