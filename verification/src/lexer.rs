//! The tokenizer: turns a sequence of Unicode scalar values into tokens.
//!
//! Whitespace is skipped, the punctuation `(`, `)` and `;` become one token
//! each, a maximal run of alphanumeric scalars becomes a `Word`, the NUL
//! sentinel (or the end of the input) ends the stream, and anything else
//! becomes an `Illegal` token carrying the rest of the input.
//!
//! The spec-level model is `token_at`: given the input and a cursor, it names
//! the token that `Lexer::next` emits and the cursor after it.

use crate::text::chars_eq;
use vstd::prelude::*;

verus! {

/// Whether a scalar value counts as alphanumeric; the meaning is fixed by
/// `char::is_alphanumeric`.
pub uninterp spec fn alphanumeric(c: char) -> bool;

/// Whether a scalar value counts as whitespace; the meaning is fixed by
/// `char::is_whitespace`.
pub uninterp spec fn whitespace(c: char) -> bool;

/// Relies on char::is_alphanumeric: the result depends on the character
/// alone. An alphanumeric character is never whitespace, never one of the
/// punctuation characters of this dialect, and never NUL, as the Unicode
/// general categories behind `char::is_alphanumeric` exclude all of those.
#[verifier::external_body]
fn is_alphanumeric_char(c: char) -> (r: bool)
    ensures
        r == alphanumeric(c),
        r ==> !whitespace(c) && c != '(' && c != ')' && c != ';' && c != '\0',
{
    c.is_alphanumeric()
}

/// Relies on char::is_whitespace: the result depends on the character alone.
/// The space character has the White_Space property and NUL does not.
#[verifier::external_body]
fn is_whitespace_char(c: char) -> (r: bool)
    ensures
        r == whitespace(c),
        c == ' ' ==> r,
        c == '\0' ==> !r,
{
    c.is_whitespace()
}

/// One token of the scripting dialect.
#[derive(Debug)]
pub enum Token {
    /// One or more scalars that matched no other rule; carries the rest of
    /// the input starting at the offending scalar.
    Illegal(Vec<char>),
    LParen,
    RParen,
    Semicolon,
    /// A maximal run of alphanumeric scalars.
    Word(Vec<char>),
}

/// The mathematical shape of a `Token`.
pub enum TokenModel {
    Illegal(Seq<char>),
    LParen,
    RParen,
    Semicolon,
    Word(Seq<char>),
}

impl View for Token {
    type V = TokenModel;

    open spec fn view(&self) -> TokenModel {
        match self {
            Token::Illegal(v) => TokenModel::Illegal(v@),
            Token::LParen => TokenModel::LParen,
            Token::RParen => TokenModel::RParen,
            Token::Semicolon => TokenModel::Semicolon,
            Token::Word(v) => TokenModel::Word(v@),
        }
    }
}

impl vstd::std_specs::cmp::PartialEqSpecImpl for Token {
    open spec fn obeys_eq_spec() -> bool {
        true
    }

    open spec fn eq_spec(&self, other: &Token) -> bool {
        self@ == other@
    }
}

impl PartialEq for Token {
    fn eq(&self, other: &Token) -> (r: bool) {
        match (self, other) {
            (Token::Illegal(a), Token::Illegal(b)) => chars_eq(a, b),
            (Token::LParen, Token::LParen) => true,
            (Token::RParen, Token::RParen) => true,
            (Token::Semicolon, Token::Semicolon) => true,
            (Token::Word(a), Token::Word(b)) => chars_eq(a, b),
            _ => false,
        }
    }
}

/// The character at position `i`, with NUL standing in for the end of the
/// input.
pub open spec fn char_at(s: Seq<char>, i: int) -> char {
    if 0 <= i < s.len() {
        s[i]
    } else {
        '\0'
    }
}

/// The first position at or after `p` holding a non-whitespace character.
pub open spec fn skip_ws(s: Seq<char>, p: int) -> int
    decreases s.len() - p,
{
    if 0 <= p < s.len() && whitespace(s[p]) {
        skip_ws(s, p + 1)
    } else {
        p
    }
}

/// The first position at or after `p` holding a non-alphanumeric character:
/// the end of the word that starts at `p`.
pub open spec fn word_end(s: Seq<char>, p: int) -> int
    decreases s.len() - p,
{
    if 0 <= p < s.len() && alphanumeric(s[p]) {
        word_end(s, p + 1)
    } else {
        p
    }
}

/// The token produced at cursor `p`, and the cursor after it: whitespace is
/// skipped, punctuation is one token, NUL (or the end of the input) ends the
/// stream, an alphanumeric character opens a maximal `Word` run, and any
/// other character yields `Illegal` carrying the rest of the input.
pub open spec fn token_at(s: Seq<char>, p: int) -> (Option<TokenModel>, int) {
    let q = skip_ws(s, p);
    let c = char_at(s, q);
    if c == '(' {
        (Some(TokenModel::LParen), q + 1)
    } else if c == ')' {
        (Some(TokenModel::RParen), q + 1)
    } else if c == ';' {
        (Some(TokenModel::Semicolon), q + 1)
    } else if c == '\0' {
        (None::<TokenModel>, q)
    } else if alphanumeric(c) {
        (Some(TokenModel::Word(s.subrange(q, word_end(s, q)))), word_end(s, q))
    } else {
        (Some(TokenModel::Illegal(s.subrange(q, s.len() as int))), q + 1)
    }
}

pub proof fn lemma_skip_ws_bounds(s: Seq<char>, p: int)
    requires
        0 <= p <= s.len(),
    ensures
        p <= skip_ws(s, p) <= s.len(),
    decreases s.len() - p,
{
    if p < s.len() && whitespace(s[p]) {
        lemma_skip_ws_bounds(s, p + 1);
    }
}

pub proof fn lemma_word_end_bounds(s: Seq<char>, p: int)
    requires
        0 <= p <= s.len(),
    ensures
        p <= word_end(s, p) <= s.len(),
    decreases s.len() - p,
{
    if p < s.len() && alphanumeric(s[p]) {
        lemma_word_end_bounds(s, p + 1);
    }
}

/// A token always moves the cursor forward, and never past the end.
pub proof fn lemma_token_at_bounds(s: Seq<char>, p: int)
    requires
        0 <= p <= s.len(),
    ensures
        p <= token_at(s, p).1 <= s.len(),
        token_at(s, p).0 is Some ==> token_at(s, p).1 > p,
{
    lemma_skip_ws_bounds(s, p);
    let q = skip_ws(s, p);
    let c = char_at(s, q);
    if c != '(' && c != ')' && c != ';' && c != '\0' && alphanumeric(c) {
        lemma_word_end_bounds(s, q);
        assert(q < s.len());
        assert(word_end(s, q) == word_end(s, q + 1));
        lemma_word_end_bounds(s, q + 1);
    }
}

/// Maximal munch: on an input made of word characters only, the tokenizer
/// emits the whole input as a single `Word` and then ends the stream.
///
/// The hypotheses spell out that each character is a word character and not
/// one of the characters the tokenizer treats specially; the model leaves
/// open whether a character could be classified both ways, so the exclusions
/// cannot be dropped here, though no actual character falls in both classes.
pub proof fn lemma_maximal_munch(s: Seq<char>)
    requires
        s.len() > 0,
        forall|i: int|
            0 <= i < s.len() ==> alphanumeric(#[trigger] s[i]) && !whitespace(s[i]) && s[i] != '('
                && s[i] != ')' && s[i] != ';' && s[i] != '\0',
    ensures
        token_at(s, 0) == (Some(TokenModel::Word(s)), s.len() as int),
        token_at(s, s.len() as int).0 is None,
{
    assert(skip_ws(s, 0) == 0);
    lemma_word_end_is_len(s, 0);
    assert(s.subrange(0, s.len() as int) =~= s);
    assert(skip_ws(s, s.len() as int) == s.len() as int);
    assert(char_at(s, s.len() as int) == '\0');
}

proof fn lemma_word_end_is_len(s: Seq<char>, p: int)
    requires
        0 <= p <= s.len(),
        forall|i: int| 0 <= i < s.len() ==> alphanumeric(#[trigger] s[i]),
    ensures
        word_end(s, p) == s.len(),
    decreases s.len() - p,
{
    if p < s.len() {
        lemma_word_end_is_len(s, p + 1);
    }
}

/// The tokenizer. It holds the whole input, a cursor, and a one-character
/// lookahead, exactly one character ahead of `pos` once reading has started.
pub struct Lexer {
    pub input: Vec<char>,
    pub pos: usize,
    pub read_pos: usize,
    pub ch: char,
}

impl Lexer {
    /// True once the first `read` has happened: from then on `ch` mirrors
    /// `char_at(input, pos)` and `read_pos` trails it by one.
    pub open spec fn started(&self) -> bool {
        self.read_pos == self.pos + 1
    }

    /// Well-formedness: either the freshly built state, whose lookahead is a
    /// space so that the first whitespace skip performs the first read, or a
    /// started state with the lookahead in step with the cursor.
    pub open spec fn wf(&self) -> bool {
        &&& self.input@.len() < usize::MAX
        &&& {
            ||| (self.started() && self.pos <= self.input@.len() && self.ch == char_at(
                self.input@,
                self.pos as int,
            ))
            ||| (self.pos == 0 && self.read_pos == 0 && self.ch == ' ')
        }
    }

    /// The position of the next character the tokenizer will look at.
    pub open spec fn cursor(&self) -> int {
        self.pos as int
    }

    pub fn new(input: Vec<char>) -> (r: Lexer)
        requires
            input@.len() < usize::MAX,
        ensures
            r.wf(),
            r.input@ == input@,
            r.cursor() == 0,
    {
        Lexer { input, pos: 0, read_pos: 0, ch: ' ' }
    }

    /// Advances the lookahead by one character; NUL past the end.
    fn read(&mut self)
        requires
            old(self).wf(),
            old(self).started() ==> old(self).pos < old(self).input@.len(),
        ensures
            final(self).wf(),
            final(self).started(),
            final(self).input@ == old(self).input@,
            final(self).pos as int == if old(self).started() {
                old(self).pos + 1
            } else {
                0
            },
    {
        if self.read_pos >= self.input.len() {
            self.ch = '\0';
        } else {
            self.ch = self.input[self.read_pos];
        }
        self.pos = self.read_pos;
        self.read_pos = self.read_pos + 1;
    }

    /// Reads the maximal alphanumeric run that starts at the cursor.
    fn read_word(&mut self) -> (r: Vec<char>)
        requires
            old(self).wf(),
            old(self).started(),
        ensures
            final(self).wf(),
            final(self).started(),
            final(self).input@ == old(self).input@,
            final(self).pos as int == word_end(old(self).input@, old(self).pos as int),
            r@ == old(self).input@.subrange(
                old(self).pos as int,
                word_end(old(self).input@, old(self).pos as int),
            ),
    {
        let ghost s = self.input@;
        let ghost p0 = self.pos as int;
        let pos = self.pos;
        while is_alphanumeric_char(self.ch)
            invariant
                self.wf(),
                self.started(),
                self.input@ == s,
                pos as int == p0,
                p0 <= self.pos as int <= s.len(),
                word_end(s, self.pos as int) == word_end(s, p0),
                forall|j: int| p0 <= j < self.pos as int ==> alphanumeric(#[trigger] s[j]),
            decreases s.len() - self.pos as int,
        {
            proof {
                assert(self.pos < s.len());
            }
            self.read();
        }
        proof {
            assert(word_end(s, self.pos as int) == self.pos as int);
        }
        let mut out: Vec<char> = Vec::new();
        let mut k = pos;
        while k < self.pos
            invariant
                self.input@ == s,
                pos as int == p0,
                p0 <= k as int <= self.pos as int <= s.len(),
                out@ == s.subrange(p0, k as int),
            decreases self.pos as int - k as int,
        {
            out.push(self.input[k]);
            proof {
                assert(out@ =~= s.subrange(p0, k as int + 1));
            }
            k = k + 1;
        }
        out
    }

    /// Moves the cursor past any whitespace.
    fn skip_whitespace(&mut self)
        requires
            old(self).wf(),
        ensures
            final(self).wf(),
            final(self).started(),
            final(self).input@ == old(self).input@,
            final(self).pos as int == skip_ws(old(self).input@, old(self).cursor()),
    {
        let ghost s = self.input@;
        let ghost p0 = self.cursor();
        while is_whitespace_char(self.ch)
            invariant
                self.wf(),
                self.input@ == s,
                self.cursor() == p0 || (self.started() && skip_ws(s, self.cursor()) == skip_ws(
                    s,
                    p0,
                )),
            decreases s.len() - self.cursor() + if self.started() {
                0int
            } else {
                1int
            },
        {
            proof {
                if self.started() {
                    assert(self.pos < s.len());
                }
            }
            self.read();
        }
        proof {
            if !self.started() {
                assert(false);
            }
            assert(skip_ws(s, self.cursor()) == self.cursor());
        }
    }

    /// Emits the next token, or `None` at the end of the input or at the NUL
    /// sentinel, exactly as `token_at` describes at the current cursor.
    pub fn next(&mut self) -> (r: Option<Token>)
        requires
            old(self).wf(),
        ensures
            final(self).wf(),
            final(self).started(),
            final(self).input@ == old(self).input@,
            ({
                let (t, p2) = token_at(old(self).input@, old(self).cursor());
                &&& final(self).cursor() == p2
                &&& match (r, t) {
                    (Some(tok), Some(tm)) => tok@ == tm,
                    (None, None) => true,
                    _ => false,
                }
            }),
    {
        let ghost s = self.input@;
        let result: Token;
        self.skip_whitespace();
        let ghost q = self.cursor();
        if self.ch == '(' {
            result = Token::LParen;
        } else if self.ch == ')' {
            result = Token::RParen;
        } else if self.ch == ';' {
            result = Token::Semicolon;
        } else if self.ch == '\0' {
            return None;
        } else {
            // the word and illegal branches must not perform the trailing
            // one-character advance: the run already ends at the right place
            if is_alphanumeric_char(self.ch) {
                return Some(Token::Word(self.read_word()));
            } else {
                let mut rest: Vec<char> = Vec::new();
                let mut k = self.pos;
                proof {
                    assert(rest@ =~= s.subrange(q, k as int));
                }
                while k < self.input.len()
                    invariant
                        self.input@ == s,
                        0 <= q <= k as int <= s.len(),
                        rest@ == s.subrange(q, k as int),
                    decreases s.len() - k as int,
                {
                    rest.push(self.input[k]);
                    proof {
                        assert(rest@ =~= s.subrange(q, k as int + 1));
                    }
                    k = k + 1;
                }
                result = Token::Illegal(rest);
            }
        }
        proof {
            assert(self.pos < s.len());
        }
        self.read();
        Some(result)
    }
}

} // verus!
