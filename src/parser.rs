//! Parse text into words, newlines, whitespace runs and the other tokens that the
//! line layout acts on.
use crate::escape::{escape_prefix, parse_escape, EscapeCode};
use vstd::prelude::*;

verus! {

/// Non-breaking space: drawn as a space, but never a wrap point.
pub const SPEC_CHAR_NBSP: char = '\u{a0}';

/// Soft hyphen: an optional break point, drawn as a hyphen only where the line breaks.
pub const SPEC_CHAR_SHY: char = '\u{ad}';

/// The character that starts an escape sequence.
pub const SPEC_CHAR_ESCAPE: char = '\u{1b}';

/// A text token. Each one borrows the text that it was read from.
#[derive(Debug, PartialEq, Eq, Clone, Copy)]
pub enum Token<'a> {
    /// A newline character.
    NewLine,
    /// A \r character.
    CarriageReturn,
    /// A tab character.
    Tab,
    /// A run of whitespace characters: how many, and the run itself.
    Whitespace(u32, &'a str),
    /// A word (a run of non-whitespace characters).
    Word(&'a str),
    /// A possible break point: the glyph to draw if the line breaks here, and the
    /// text that it stands for.
    Break(&'a str, &'a str),
    /// An escape sequence: its code, and the text that it was read from.
    EscapeSequence(EscapeCode, &'a str),
}

impl<'a> Token<'a> {
    /// The text that the token was read from.
    pub open spec fn raw(&self) -> Seq<char> {
        match *self {
            Token::NewLine => seq!['\n'],
            Token::CarriageReturn => seq!['\r'],
            Token::Tab => seq!['\t'],
            Token::Whitespace(_, s) => s@,
            Token::Word(s) => s@,
            Token::Break(_, s) => s@,
            Token::EscapeSequence(_, s) => s@,
        }
    }
}

/// Whether a character has the Unicode White_Space property.
pub open spec fn white_space(c: char) -> bool {
    let u = c as u32;
    ||| 0x9 <= u <= 0xd
    ||| u == 0x20
    ||| u == 0x85
    ||| u == 0xa0
    ||| u == 0x1680
    ||| 0x2000 <= u <= 0x200a
    ||| u == 0x2028
    ||| u == 0x2029
    ||| u == 0x202f
    ||| u == 0x205f
    ||| u == 0x3000
}

/// Relies on `char::is_whitespace`: whether the character has the Unicode White_Space
/// property.
#[verifier::external_body]
fn is_whitespace(c: char) -> (r: bool)
    ensures
        r == white_space(c),
{
    c.is_whitespace()
}

/// A character that a whitespace run is made of.
pub open spec fn space_char(c: char) -> bool {
    white_space(c) && c != '\n' && c != '\r' && c != '\t' && c != SPEC_CHAR_NBSP && c
        != SPEC_CHAR_SHY && c != SPEC_CHAR_ESCAPE
}

/// A character that a word is made of (an escape character only where no escape
/// sequence starts at it).
pub open spec fn word_char(c: char) -> bool {
    (!white_space(c) || c == SPEC_CHAR_NBSP) && c != '\n' && c != '\r' && c != '\t' && c
        != SPEC_CHAR_SHY && c != SPEC_CHAR_ESCAPE
}

/// Whether an escape sequence starts the text.
pub open spec fn escape_starts(s: Seq<char>) -> bool {
    escape_prefix(s) matches Some((k, _)) && 1 <= k <= s.len()
}

/// Whether the word that is being read goes on with the first character of `s`.
pub open spec fn word_goes_on(s: Seq<char>) -> bool {
    s.len() > 0 && (word_char(s[0]) || (s[0] == SPEC_CHAR_ESCAPE && !escape_starts(s)))
}

/// The end of the word run of `s` that is known to go on up to `i`.
pub open spec fn word_end(s: Seq<char>, i: nat) -> nat
    decreases s.len() - i,
{
    if i < s.len() && word_goes_on(s.skip(i as int)) {
        word_end(s, i + 1)
    } else {
        i
    }
}

/// The end of the whitespace run of `s` that is known to go on up to `i`; a run holds at
/// most `u32::MAX` characters.
pub open spec fn space_end(s: Seq<char>, i: nat) -> nat
    decreases s.len() - i,
{
    if i < s.len() && i < u32::MAX && space_char(s[i as int]) {
        space_end(s, i + 1)
    } else {
        i
    }
}

/// The number of characters that the first token of a non-empty text spans.
pub open spec fn token_len(s: Seq<char>) -> nat {
    let c = s[0];
    if c == '\n' || c == '\r' || c == '\t' || c == SPEC_CHAR_SHY {
        1
    } else if c == SPEC_CHAR_ESCAPE && escape_starts(s) {
        match escape_prefix(s) {
            Some((k, _)) => k,
            None => 0,
        }
    } else if space_char(c) {
        space_end(s, 1)
    } else {
        word_end(s, 1)
    }
}

/// Whether `t` is the first token of the non-empty text `s`.
pub open spec fn is_first_token(t: Token, s: Seq<char>) -> bool {
    let c = s[0];
    let n = token_len(s);
    &&& t.raw() == s.take(n as int)
    &&& if c == '\n' {
        t is NewLine
    } else if c == '\r' {
        t is CarriageReturn
    } else if c == '\t' {
        t is Tab
    } else if c == SPEC_CHAR_SHY {
        t matches Token::Break(glyph, _) && glyph@ == seq!['-']
    } else if c == SPEC_CHAR_ESCAPE && escape_starts(s) {
        t matches Token::EscapeSequence(code, _) && escape_prefix(s) matches Some((_, c)) && code == c
    } else if space_char(c) {
        t matches Token::Whitespace(count, _) && count == n
    } else {
        t is Word
    }
}

/// The text that a sequence of tokens was read from.
pub open spec fn raw_text(ts: Seq<Token>) -> Seq<char>
    decreases ts.len(),
{
    if ts.len() == 0 {
        seq![]
    } else {
        raw_text(ts.drop_last()) + ts.last().raw()
    }
}

proof fn lemma_word_end_bounds(s: Seq<char>, i: nat)
    requires
        i <= s.len(),
    ensures
        i <= word_end(s, i) <= s.len(),
    decreases s.len() - i,
{
    if i < s.len() && word_goes_on(s.skip(i as int)) {
        lemma_word_end_bounds(s, i + 1);
    }
}

proof fn lemma_space_end_bounds(s: Seq<char>, i: nat)
    requires
        i <= s.len(),
        i <= u32::MAX,
    ensures
        i <= space_end(s, i) <= s.len(),
        space_end(s, i) <= u32::MAX,
    decreases s.len() - i,
{
    if i < s.len() && i < u32::MAX && space_char(s[i as int]) {
        lemma_space_end_bounds(s, i + 1);
    }
}

/// The first token of a non-empty text spans at least one of its characters and at
/// most all of them.
pub proof fn lemma_token_len_bounds(s: Seq<char>)
    requires
        s.len() > 0,
    ensures
        1 <= token_len(s) <= s.len(),
{
    lemma_word_end_bounds(s, 1);
    lemma_space_end_bounds(s, 1);
}

/// Text parser. Turns a string into a stream of [`Token`] objects.
#[derive(Clone, Copy, Debug)]
pub struct Parser<'a> {
    text: &'a str,
}

impl<'a> View for Parser<'a> {
    type V = Seq<char>;

    /// The text that is left to parse.
    closed spec fn view(&self) -> Seq<char> {
        self.text@
    }
}

impl<'a> Parser<'a> {
    /// Creates a new parser object to process the given piece of text.
    pub fn parse(text: &'a str) -> (r: Self)
        ensures
            r@ == text@,
    {
        Parser { text }
    }

    /// Returns the next token without advancing.
    pub fn peek(&self) -> (r: Option<Token<'a>>)
        ensures
            self@.len() == 0 ==> r is None,
            self@.len() > 0 ==> (r matches Some(t) && is_first_token(t, self@)),
    {
        let mut copy = *self;
        copy.next()
    }

    /// Returns true if there are no tokens to process.
    pub fn is_empty(&self) -> (r: bool)
        ensures
            r == (self@.len() == 0),
    {
        self.text.unicode_len() == 0
    }

    /// Returns the number of unprocessed bytes.
    pub fn remaining(&self) -> (r: usize)
        ensures
            r == vstd::utf8::encode_utf8(self@).len() as usize,
    {
        self.text.len()
    }

    fn is_word_char(c: char) -> (r: bool)
        ensures
            r == word_char(c),
    {
        (!is_whitespace(c) || c == SPEC_CHAR_NBSP) && c != '\n' && c != '\r' && c != '\t' && c
            != SPEC_CHAR_SHY && c != SPEC_CHAR_ESCAPE
    }

    fn is_space_char(c: char) -> (r: bool)
        ensures
            r == space_char(c),
    {
        is_whitespace(c) && c != '\n' && c != '\r' && c != '\t' && c != SPEC_CHAR_NBSP && c
            != SPEC_CHAR_SHY && c != SPEC_CHAR_ESCAPE
    }

    /// Whether an escape sequence starts at the `i`-th character of the text.
    fn escape_at(&self, i: usize) -> (r: bool)
        requires
            i < self@.len(),
        ensures
            r == escape_starts(self@.skip(i as int)),
    {
        let len = self.text.unicode_len();
        let tail = self.text.substring_char(i, len);
        assert(tail@ =~= self@.skip(i as int));
        match parse_escape(tail) {
            Some((rest, _)) => true,
            None => false,
        }
    }

    /// Splits off the first `n` characters as the token's text and advances past them.
    fn advance(&mut self, n: usize) -> (r: &'a str)
        requires
            n <= old(self)@.len(),
        ensures
            r@ == old(self)@.take(n as int),
            final(self)@ == old(self)@.skip(n as int),
    {
        let len = self.text.unicode_len();
        let head = self.text.substring_char(0, n);
        self.text = self.text.substring_char(n, len);
        assert(head@ =~= old(self)@.take(n as int));
        assert(self.text@ =~= old(self)@.skip(n as int));
        head
    }

    /// Reads the next token and advances past it.
    pub fn next(&mut self) -> (r: Option<Token<'a>>)
        ensures
            old(self)@.len() == 0 ==> r is None && final(self)@ == old(self)@,
            old(self)@.len() > 0 ==> (r matches Some(t) && {
                &&& is_first_token(t, old(self)@)
                &&& final(self)@ == old(self)@.skip(token_len(old(self)@) as int)
                &&& old(self)@ == t.raw() + final(self)@
                &&& final(self)@.len() < old(self)@.len()
            }),
    {
        let ghost s = self@;
        let len = self.text.unicode_len();
        if len == 0 {
            return None;
        }
        proof {
            lemma_token_len_bounds(s);
        }
        let c = self.text.get_char(0);
        assert(s.skip(0) =~= s);
        let token = if c == '\n' {
            self.advance(1);
            assert(Token::NewLine.raw() =~= s.take(token_len(s) as int));
            Token::NewLine
        } else if c == '\r' {
            self.advance(1);
            Token::CarriageReturn
        } else if c == '\t' {
            self.advance(1);
            Token::Tab
        } else if c == SPEC_CHAR_SHY {
            let span = self.advance(1);
            proof {
                reveal_strlit("-");
                assert("-"@ =~= seq!['-']);
            }
            Token::Break("-", span)
        } else {
            let escape = if c == SPEC_CHAR_ESCAPE {
                parse_escape(self.text)
            } else {
                None
            };
            match escape {
                Some((rest, code)) => {
                    let n = len - rest.unicode_len();
                    let span = self.advance(n);
                    assert(token_len(s) == n);
                    Token::EscapeSequence(code, span)
                },
                None => self.next_run(c, len),
            }
        };
        assert(token.raw() =~= s.take(token_len(s) as int));
        assert(s =~= token.raw() + self@);
        Some(token)
    }

    /// Reads a whitespace run or a word that starts with `c`, which is no character of a
    /// token of its own.
    fn next_run(&mut self, c: char, len: usize) -> (r: Token<'a>)
        requires
            old(self)@.len() > 0,
            len == old(self)@.len(),
            c == old(self)@[0],
            c != '\n' && c != '\r' && c != '\t' && c != SPEC_CHAR_SHY,
            !(c == SPEC_CHAR_ESCAPE && escape_starts(old(self)@)),
        ensures
            is_first_token(r, old(self)@),
            final(self)@ == old(self)@.skip(token_len(old(self)@) as int),
    {
        let ghost s = self@;
        proof {
            lemma_token_len_bounds(s);
        }
        if Self::is_space_char(c) {
            let mut i: usize = 1;
            while i < len && i < 0xffff_ffffusize && Self::is_space_char(self.text.get_char(i))
                invariant
                    1 <= i <= len,
                    len == s.len(),
                    self@ == s,
                    i <= u32::MAX,
                    space_end(s, 1) == space_end(s, i as nat),
                decreases len - i,
            {
                i = i + 1;
            }
            assert(space_end(s, i as nat) == i as nat);
            let run = self.advance(i);
            assert(token_len(s) == i);
            Token::Whitespace(i as u32, run)
        } else {
            let mut i: usize = 1;
            while i < len
                invariant
                    1 <= i <= len,
                    len == s.len(),
                    self@ == s,
                    word_end(s, 1) == word_end(s, i as nat),
                ensures
                    1 <= i <= len,
                    word_end(s, 1) == i,
                decreases len - i,
            {
                let d = self.text.get_char(i);
                assert(s.skip(i as int)[0] == s[i as int]);
                if Self::is_word_char(d) {
                    i = i + 1;
                } else if d == SPEC_CHAR_ESCAPE && !self.escape_at(i) {
                    i = i + 1;
                } else {
                    break;
                }
            }
            let word = self.advance(i);
            assert(token_len(s) == i);
            Token::Word(word)
        }
    }

    /// The number of characters that are left.
    pub(crate) fn char_len(&self) -> (r: usize)
        ensures
            r == self@.len(),
    {
        self.text.unicode_len()
    }

    /// Skips the next `n` characters, or all that are left where fewer are.
    pub(crate) fn consume(&mut self, n: usize)
        ensures
            final(self)@ == old(self)@.skip(
                if n <= old(self)@.len() {
                    n as int
                } else {
                    old(self)@.len() as int
                },
            ),
    {
        let len = self.text.unicode_len();
        let k = if n <= len {
            n
        } else {
            len
        };
        self.advance(k);
    }

    /// Reads all the tokens that are left.
    pub fn tokens(self) -> (r: Vec<Token<'a>>)
        ensures
            raw_text(r@) == self@,
            forall|i: int|
                0 <= i < r@.len() ==> is_first_token(
                    #[trigger] r@[i],
                    self@.skip(raw_text(r@.take(i)).len() as int),
                ),
    {
        let mut parser = self;
        let mut tokens: Vec<Token<'a>> = Vec::new();
        while !parser.is_empty()
            invariant
                raw_text(tokens@) + parser@ == self@,
                forall|i: int|
                    0 <= i < tokens@.len() ==> is_first_token(
                        #[trigger] tokens@[i],
                        self@.skip(raw_text(tokens@.take(i)).len() as int),
                    ),
            decreases parser@.len(),
        {
            let ghost before = parser@;
            let t = parser.next();
            proof {
                lemma_token_len_bounds(before);
            }
            match t {
                Some(t) => {
                    let ghost old_tokens = tokens@;
                    tokens.push(t);
                    assert(tokens@.drop_last() =~= old_tokens);
                    assert(tokens@.take(old_tokens.len() as int) =~= old_tokens);
                    assert(self@.skip(raw_text(old_tokens).len() as int) =~= before);
                    assert forall|i: int| 0 <= i < tokens@.len() implies is_first_token(
                        #[trigger] tokens@[i],
                        self@.skip(raw_text(tokens@.take(i)).len() as int),
                    ) by {
                        if i < old_tokens.len() {
                            assert(tokens@.take(i) =~= old_tokens.take(i));
                            assert(tokens@[i] == old_tokens[i]);
                        }
                    }
                    assert(raw_text(tokens@) + parser@ =~= raw_text(old_tokens) + before);
                },
                None => {},
            }
        }
        assert(raw_text(tokens@) + parser@ =~= raw_text(tokens@));
        tokens
    }
}

} // verus!
