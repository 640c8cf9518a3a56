//! The lexer: turns text into tokens, one at a time, with one token of
//! lookahead.

use vstd::pervasive::unreached;
use vstd::prelude::*;
use vstd::string::*;

use crate::char_stream::{
    blank_run_end, lemma_run_end_properties, lemma_run_end_unique, run_end, CharStream,
};
use crate::parse_utils::{
    digit_class, identifier_class, is_decimal_digit, is_valid_identifier_first,
    is_valid_in_identifier, spec_is_decimal_digit, spec_is_valid_identifier_first,
    spec_is_valid_in_identifier, whitespace_class,
};
use crate::text::{
    byte_len, lemma_byte_len_step, lemma_byte_len_take, split_after, split_first, str_equal,
    utf8_width,
};
use crate::tokens::{Token, TokenModel};

verus! {

/// Why a piece of text is no token. The text that offends is carried along.
#[derive(Clone, Debug, PartialEq, Eq)]
pub enum LexerError {
    UnknownToken(String),
    InvalidNumber(String),
    UnterminatedString,
    UnexpectedEof,
}

/// The mathematical value of a `LexerError`.
pub enum LexerErrorModel {
    UnknownToken(Seq<char>),
    InvalidNumber(Seq<char>),
    UnterminatedString,
    UnexpectedEof,
}

impl View for LexerError {
    type V = LexerErrorModel;

    open spec fn view(&self) -> LexerErrorModel {
        match self {
            LexerError::UnknownToken(text) => LexerErrorModel::UnknownToken(text@),
            LexerError::InvalidNumber(text) => LexerErrorModel::InvalidNumber(text@),
            LexerError::UnterminatedString => LexerErrorModel::UnterminatedString,
            LexerError::UnexpectedEof => LexerErrorModel::UnexpectedEof,
        }
    }
}

/// A lexer error with the byte offset at which it was found.
#[derive(Debug, PartialEq, Eq)]
pub struct LexerErrorCtx(pub usize, pub LexerError);

pub type LexerResult<T> = Result<T, LexerErrorCtx>;

/// What the lexer finds at one place of the text: a token or an error, with the
/// byte offset of its first character.
pub enum Lexeme {
    Token(usize, TokenModel),
    Error(usize, LexerErrorModel),
}

impl Lexeme {
    /// Whether the lexeme is a token other than the end of input: the only
    /// lexemes after which lexing goes on.
    pub open spec fn is_proper_token(self) -> bool {
        self matches Lexeme::Token(_, token) && token != TokenModel::EOF
    }
}

/// The lexeme that a result of the lexer stands for.
pub open spec fn lexeme_of<'a>(r: LexerResult<(usize, Token<'a>)>) -> Lexeme {
    match r {
        Ok((offset, token)) => Lexeme::Token(offset, token@),
        Err(LexerErrorCtx(offset, error)) => Lexeme::Error(offset, error@),
    }
}

/// A result of the lexer that leaves the offset of a token out stands for the
/// given lexeme: the same token, or the same error at the same offset.
pub open spec fn token_is<'a>(r: LexerResult<Token<'a>>, lexeme: Lexeme) -> bool {
    match (r, lexeme) {
        (Ok(token), Lexeme::Token(_, expected)) => token@ == expected,
        (Err(e), Lexeme::Error(offset, error)) => e.0 == offset && e.1@ == error,
        _ => false,
    }
}

/// The lexeme that a result of peeking stands for.
pub open spec fn peeked_lexeme<'a>(r: LexerResult<&(usize, Token<'a>)>) -> Lexeme {
    match r {
        Ok(token) => Lexeme::Token(token.0, token.1@),
        Err(LexerErrorCtx(offset, error)) => Lexeme::Error(offset, error@),
    }
}

/// A result of peeking that leaves the offset of a token out stands for the
/// given lexeme.
pub open spec fn peeked_token_is<'a>(r: LexerResult<&Token<'a>>, lexeme: Lexeme) -> bool {
    match (r, lexeme) {
        (Ok(token), Lexeme::Token(_, expected)) => token@ == expected,
        (Err(e), Lexeme::Error(offset, error)) => e.0 == offset && e.1@ == error,
        _ => false,
    }
}

/// The value of a decimal digit.
pub open spec fn digit_value(c: char) -> nat {
    (c as u32 - '0' as u32) as nat
}

/// The number that a sequence of decimal digits denotes.
pub open spec fn decimal_value(digits: Seq<char>) -> nat
    decreases digits.len(),
{
    if digits.len() == 0 {
        0
    } else {
        decimal_value(digits.drop_last()) * 10 + digit_value(digits.last())
    }
}

/// The token that a punctuation character stands for.
pub open spec fn punctuation(c: char) -> Option<TokenModel> {
    if c == '(' {
        Some(TokenModel::LParen)
    } else if c == ')' {
        Some(TokenModel::RParen)
    } else if c == '{' {
        Some(TokenModel::LBrace)
    } else if c == '}' {
        Some(TokenModel::RBrace)
    } else if c == '=' {
        Some(TokenModel::Equals)
    } else if c == ';' {
        Some(TokenModel::Semicolon)
    } else if c == ':' {
        Some(TokenModel::Colon)
    } else if c == '+' {
        Some(TokenModel::Plus)
    } else if c == '-' {
        Some(TokenModel::Minus)
    } else if c == '*' {
        Some(TokenModel::Asterisk)
    } else {
        None
    }
}

/// The token that a word stands for: a keyword, or else an identifier.
pub open spec fn word_token(text: Seq<char>) -> TokenModel {
    if text == "let"@ {
        TokenModel::Let
    } else if text == "mut"@ {
        TokenModel::Mut
    } else {
        TokenModel::Identifier(text)
    }
}

/// The token that a run of digits stands for, or the error if the number
/// does not fit a 128-bit signed integer.
pub open spec fn number_lexeme(offset: usize, text: Seq<char>) -> Lexeme {
    if decimal_value(text) <= i128::MAX {
        Lexeme::Token(offset, TokenModel::Integer(decimal_value(text) as i128))
    } else {
        Lexeme::Error(offset, LexerErrorModel::InvalidNumber(text))
    }
}

/// Lexes once, from character index `from` of `s`: skips blanks, then reads
/// one lexeme. The result is the lexeme and the index at which the lexer
/// stands afterwards. At the end of the text the lexeme is the `EOF` token. A
/// character that starts no token is not consumed.
pub open spec fn lex_one(s: Seq<char>, from: int) -> (Lexeme, int) {
    let start = blank_run_end(s, from);
    let offset = byte_len(s.take(start)) as usize;
    if !(0 <= start < s.len()) {
        (Lexeme::Token(offset, TokenModel::EOF), start)
    } else if let Some(token) = punctuation(s[start]) {
        (Lexeme::Token(offset, token), start + 1)
    } else if spec_is_decimal_digit(s[start]) {
        let end = run_end(s, start, digit_class());
        (number_lexeme(offset, s.subrange(start, end)), end)
    } else if spec_is_valid_identifier_first(s[start]) {
        let end = run_end(s, start, identifier_class());
        (Lexeme::Token(offset, word_token(s.subrange(start, end))), end)
    } else {
        (Lexeme::Error(offset, LexerErrorModel::UnknownToken(seq![s[start]])), start)
    }
}

/// All the lexemes from character index `from` on, up to and including the
/// first that ends lexing: the `EOF` token or an error.
pub open spec fn lex_all(s: Seq<char>, from: int) -> Seq<Lexeme>
    decreases s.len() - from,
{
    let (lexeme, end) = lex_one(s, from);
    if lexeme.is_proper_token() && from < end <= s.len() {
        seq![lexeme] + lex_all(s, end)
    } else {
        seq![lexeme]
    }
}

/// A sequence of lexemes as a lexer produces it: tokens, closed by exactly one
/// lexeme that ends lexing, the `EOF` token or an error.
pub open spec fn is_stream(ts: Seq<Lexeme>) -> bool {
    &&& ts.len() >= 1
    &&& !ts.last().is_proper_token()
    &&& forall|i: int| 0 <= i < ts.len() - 1 ==> (#[trigger] ts[i]).is_proper_token()
}

/// The lexemes after the first one is taken. The closing lexeme stays: the end
/// of input can be taken any number of times.
pub open spec fn advance(ts: Seq<Lexeme>) -> Seq<Lexeme> {
    if ts.len() > 1 {
        ts.drop_first()
    } else {
        ts
    }
}

/// The lexemes from any place of a text form a stream.
pub proof fn lemma_lex_all_is_stream(s: Seq<char>, from: int)
    requires
        0 <= from <= s.len(),
    ensures
        is_stream(lex_all(s, from)),
    decreases s.len() - from,
{
    let (lexeme, end) = lex_one(s, from);
    lemma_lex_one_advances(s, from);
    if lexeme.is_proper_token() {
        lemma_lex_all_is_stream(s, end);
        let tail = lex_all(s, end);
        let all = lex_all(s, from);
        assert(all == seq![lexeme] + tail);
        assert forall|i: int| 0 <= i < all.len() - 1 implies (#[trigger] all[i]).is_proper_token() by {
            if i > 0 {
                assert(all[i] == tail[i - 1]);
            }
        }
        assert(all.last() == tail.last());
    }
}

/// The first of the lexemes from a place is the one that lexing there gives,
/// and after a token the lexemes from where the lexer then stands are the
/// remaining ones.
pub proof fn lemma_lex_all_step(s: Seq<char>, from: int)
    requires
        0 <= from <= s.len(),
    ensures
        lex_all(s, from)[0] == lex_one(s, from).0,
        lex_one(s, from).0 is Token ==> lex_all(s, lex_one(s, from).1) == advance(
            lex_all(s, from),
        ),
{
    let (lexeme, end) = lex_one(s, from);
    lemma_lex_one_advances(s, from);
    if lexeme.is_proper_token() {
        lemma_lex_all_is_stream(s, end);
        assert(lex_all(s, from).drop_first() =~= lex_all(s, end));
    } else if lexeme is Token {
        lemma_run_end_properties(s, from, whitespace_class());
        assert(end == s.len());
        assert(blank_run_end(s, end) == end);
        assert(lex_one(s, end) == lex_one(s, from));
    }
}

/// The end of input is given again and again: where lexing gives `EOF`,
/// lexing from where the lexer then stands gives the same `EOF`.
pub proof fn lemma_end_of_input_is_idempotent(s: Seq<char>, from: int)
    requires
        0 <= from <= s.len(),
        lex_one(s, from).0 matches Lexeme::Token(_, TokenModel::EOF),
    ensures
        lex_one(s, lex_one(s, from).1) == lex_one(s, from),
{
    lemma_run_end_properties(s, from, whitespace_class());
    let end = lex_one(s, from).1;
    assert(end == s.len());
    assert(blank_run_end(s, end) == end);
}

/// Lexing stays inside the text, and a token other than `EOF` consumes at
/// least one character.
pub proof fn lemma_lex_one_advances(s: Seq<char>, from: int)
    requires
        0 <= from <= s.len(),
    ensures
        from <= lex_one(s, from).1 <= s.len(),
        lex_one(s, from).0.is_proper_token() ==> from < lex_one(s, from).1,
{
    let start = blank_run_end(s, from);
    lemma_run_end_properties(s, from, whitespace_class());
    if 0 <= start < s.len() {
        lemma_run_end_properties(s, start, digit_class());
        lemma_run_end_properties(s, start, identifier_class());
        if punctuation(s[start]) is None && spec_is_decimal_digit(s[start]) {
            assert(run_end(s, start, digit_class()) > start);
        }
        if punctuation(s[start]) is None && spec_is_valid_identifier_first(s[start]) {
            assert(run_end(s, start, identifier_class()) > start);
        }
    }
}

/// The number that a run of digits denotes grows with the run.
pub proof fn lemma_decimal_value_monotonic(digits: Seq<char>, k: int)
    requires
        0 <= k <= digits.len(),
    ensures
        decimal_value(digits.take(k)) <= decimal_value(digits),
    decreases digits.len() - k,
{
    if k < digits.len() {
        lemma_decimal_value_monotonic(digits, k + 1);
        assert(digits.take(k + 1).drop_last() =~= digits.take(k));
    } else {
        assert(digits.take(k) =~= digits);
    }
}

/// A lexer over a piece of text, with one token of lookahead.
///
/// The stream is modelled by the text (`source`) and the character index from
/// which the next token will be lexed (`cursor`). A token that was peeked at
/// is buffered; the cursor moves only when a token is taken.
pub struct TokenStream<'a> {
    stream: CharStream<'a>,
    lookahead: Option<(usize, Token<'a>)>,
    cursor: Ghost<int>,
}

impl<'a> TokenStream<'a> {
    /// The text being lexed.
    pub closed spec fn source(&self) -> Seq<char> {
        self.stream.source()
    }

    /// The character index from which the next token is lexed.
    pub closed spec fn cursor(&self) -> int {
        self.cursor@
    }

    /// Whether a peeked token is buffered.
    pub closed spec fn has_lookahead(&self) -> bool {
        self.lookahead is Some
    }

    /// The buffered token, if any, is the one that lexing at the cursor gives,
    /// and the underlying character stream stands behind it.
    pub closed spec fn wf(&self) -> bool {
        &&& self.stream.wf()
        &&& 0 <= self.cursor@ <= self.stream.source().len()
        &&& match self.lookahead {
            None => self.stream.position() == self.cursor@,
            Some((offset, token)) => lex_one(self.stream.source(), self.cursor@) == (
                Lexeme::Token(offset, token@),
                self.stream.position(),
            ),
        }
    }

    /// The lexemes still to come.
    pub open spec fn pending(&self) -> Seq<Lexeme> {
        lex_all(self.source(), self.cursor())
    }

    /// The lexemes still to come always form a stream.
    pub proof fn lemma_pending_is_stream(&self)
        requires
            self.wf(),
        ensures
            is_stream(self.pending()),
    {
        lemma_lex_all_is_stream(self.source(), self.cursor());
    }

    /// The character index at which the underlying character stream stands:
    /// behind the buffered token, if there is one.
    pub open spec fn stream_position(&self) -> int {
        if self.has_lookahead() {
            lex_one(self.source(), self.cursor()).1
        } else {
            self.cursor()
        }
    }

    pub fn new(src: &'a str) -> (tokens: TokenStream<'a>)
        ensures
            tokens.wf(),
            tokens.source() == src@,
            tokens.cursor() == 0,
            !tokens.has_lookahead(),
    {
        TokenStream { stream: CharStream::from_str(src), lookahead: None, cursor: Ghost(0) }
    }

    /// Reads a word, which the caller has found to start with a letter or an
    /// underscore, and tells keywords from identifiers.
    fn read_keyword_or_identifier(&mut self) -> (r: LexerResult<Token<'a>>)
        requires
            old(self).stream.wf(),
        ensures
            final(self).stream.wf(),
            final(self).stream.source() == old(self).stream.source(),
            final(self).lookahead == old(self).lookahead,
            final(self).cursor == old(self).cursor,
            final(self).stream.position() == run_end(
                old(self).stream.source(),
                old(self).stream.position(),
                identifier_class(),
            ),
            r matches Ok(token) && token@ == word_token(
                old(self).stream.source().subrange(
                    old(self).stream.position(),
                    final(self).stream.position(),
                ),
            ),
    {
        let ghost start = self.stream.position();
        let keyword_or_identifier = self.stream.take_while(is_valid_in_identifier);
        proof {
            let s = self.stream.source();
            let end = self.stream.position();
            assert forall|i: int| start <= i < end implies spec_is_valid_in_identifier(
                #[trigger] s[i],
            ) by {
                assert(s[i] == old(self).stream.rest()[i - start]);
                assert(s[i] == keyword_or_identifier@[i - start]);
            }
            lemma_run_end_unique(s, start, end, identifier_class());
            assert(s.subrange(start, end) =~= keyword_or_identifier@);
        }
        if str_equal(keyword_or_identifier, "let") {
            Ok(Token::Let)
        } else if str_equal(keyword_or_identifier, "mut") {
            Ok(Token::Mut)
        } else {
            Ok(Token::Identifier(keyword_or_identifier))
        }
    }

    /// Reads a run of digits, which the caller has found to be non-empty, as a
    /// number.
    fn read_number(&mut self) -> (r: LexerResult<Token<'a>>)
        requires
            old(self).stream.wf(),
        ensures
            final(self).stream.wf(),
            final(self).stream.source() == old(self).stream.source(),
            final(self).lookahead == old(self).lookahead,
            final(self).cursor == old(self).cursor,
            final(self).stream.position() == run_end(
                old(self).stream.source(),
                old(self).stream.position(),
                digit_class(),
            ),
            lexeme_of(
                match r {
                    Ok(token) => Ok((old(self).stream.spec_byte_offset() as usize, token)),
                    Err(e) => Err(e),
                },
            ) == number_lexeme(
                old(self).stream.spec_byte_offset() as usize,
                old(self).stream.source().subrange(
                    old(self).stream.position(),
                    final(self).stream.position(),
                ),
            ),
    {
        let ghost start = self.stream.position();
        let offset = self.byte_offset_raw();
        let chars = self.stream.take_while(is_decimal_digit);
        proof {
            let s = self.stream.source();
            let end = self.stream.position();
            assert forall|i: int| start <= i < end implies spec_is_decimal_digit(
                #[trigger] s[i],
            ) by {
                assert(s[i] == old(self).stream.rest()[i - start]);
                assert(s[i] == chars@[i - start]);
            }
            lemma_run_end_unique(s, start, end, digit_class());
            assert(s.subrange(start, end) =~= chars@);
        }
        match parse_decimal(chars) {
            Some(parsed) => Ok(Token::Integer(parsed)),
            None => Err(LexerErrorCtx(offset, LexerError::InvalidNumber(String::from_str(chars)))),
        }
    }

    /// The byte offset of the underlying character stream.
    fn byte_offset_raw(&self) -> (offset: usize)
        requires
            self.stream.wf(),
        ensures
            offset == self.stream.spec_byte_offset(),
    {
        self.stream.byte_offset()
    }

    /// Lexes one token from the underlying character stream.
    fn read_token(&mut self) -> (r: LexerResult<(usize, Token<'a>)>)
        requires
            old(self).stream.wf(),
        ensures
            final(self).stream.wf(),
            final(self).stream.source() == old(self).stream.source(),
            final(self).lookahead == old(self).lookahead,
            final(self).cursor == old(self).cursor,
            lexeme_of(r) == lex_one(old(self).stream.source(), old(self).stream.position()).0,
            final(self).stream.position() == lex_one(
                old(self).stream.source(),
                old(self).stream.position(),
            ).1,
    {
        self.stream.skip_whitespace();

        let offset = self.byte_offset_raw();
        let ghost s = self.stream.source();
        let ghost start = self.stream.position();

        if self.stream.remaining() == 0 {
            proof {
                if self.stream.rest().len() > 0 {
                    lemma_byte_len_step(self.stream.rest(), 0);
                    assert(self.stream.rest().take(0) =~= Seq::<char>::empty());
                    lemma_byte_len_take(self.stream.rest(), 1);
                }
            }
            return Ok((offset, Token::EOF));
        }
        let fst = match self.stream.peek() {
            Some(c) => c,
            None => {
                return Err(LexerErrorCtx(offset, LexerError::UnexpectedEof));
            },
        };
        assert(fst == s[start]);

        match fst {
            '(' => {
                self.stream.advance();
                Ok((offset, Token::LParen))
            },
            ')' => {
                self.stream.advance();
                Ok((offset, Token::RParen))
            },
            '{' => {
                self.stream.advance();
                Ok((offset, Token::LBrace))
            },
            '}' => {
                self.stream.advance();
                Ok((offset, Token::RBrace))
            },
            '=' => {
                self.stream.advance();
                Ok((offset, Token::Equals))
            },
            ';' => {
                self.stream.advance();
                Ok((offset, Token::Semicolon))
            },
            ':' => {
                self.stream.advance();
                Ok((offset, Token::Colon))
            },
            '+' => {
                self.stream.advance();
                Ok((offset, Token::Plus))
            },
            '-' => {
                self.stream.advance();
                Ok((offset, Token::Minus))
            },
            '*' => {
                self.stream.advance();
                Ok((offset, Token::Asterisk))
            },
            _ => {
                if is_decimal_digit(fst) {
                    match self.read_number() {
                        Ok(token) => Ok((offset, token)),
                        Err(e) => Err(e),
                    }
                } else if is_valid_identifier_first(fst) {
                    match self.read_keyword_or_identifier() {
                        Ok(token) => Ok((offset, token)),
                        Err(e) => Err(e),
                    }
                } else {
                    let w = utf8_width(fst);
                    proof {
                        lemma_byte_len_step(self.stream.rest(), 0);
                        assert(self.stream.rest().take(0) =~= Seq::<char>::empty());
                    }
                    let (text, _) = split_after(self.stream.unread(), w, Ghost(1));
                    assert(text@ =~= seq![fst]);
                    Err(LexerErrorCtx(offset, LexerError::UnknownToken(String::from_str(text))))
                }
            },
        }
    }

    /// The next token and its byte offset, without consuming it.
    pub fn peek_pos(&mut self) -> (r: LexerResult<&(usize, Token<'a>)>)
        requires
            old(self).wf(),
        ensures
            final(self).wf(),
            final(self).source() == old(self).source(),
            peeked_lexeme(r) == lex_one(old(self).source(), old(self).cursor()).0,
            r is Ok ==> final(self).cursor() == old(self).cursor() && final(self).has_lookahead(),
            r is Err ==> final(self).cursor() == lex_one(old(self).source(), old(self).cursor()).1
                && !final(self).has_lookahead(),
            peeked_lexeme(r) == old(self).pending()[0],
            r is Ok ==> final(self).pending() == old(self).pending(),
    {
        proof {
            lemma_lex_all_step(self.source(), self.cursor());
        }
        if self.lookahead.is_none() {
            proof {
                lemma_lex_one_advances(self.source(), self.cursor());
            }
            match self.read_token() {
                Ok(token) => {
                    self.lookahead = Some(token);
                },
                Err(e) => {
                    self.cursor = Ghost(self.stream.position());
                    return Err(e);
                },
            }
        }
        match &self.lookahead {
            Some(token) => Ok(token),
            None => unreached(),
        }
    }

    /// The next token, without consuming it.
    pub fn peek(&mut self) -> (r: LexerResult<&Token<'a>>)
        requires
            old(self).wf(),
        ensures
            final(self).wf(),
            final(self).source() == old(self).source(),
            r is Ok ==> final(self).cursor() == old(self).cursor() && final(self).has_lookahead(),
            r is Err ==> final(self).cursor() == lex_one(old(self).source(), old(self).cursor()).1
                && !final(self).has_lookahead(),
            peeked_token_is(r, old(self).pending()[0]),
            r is Ok ==> final(self).pending() == old(self).pending(),
    {
        match self.peek_pos() {
            Ok(token) => Ok(&token.1),
            Err(e) => Err(e),
        }
    }

    /// Consumes the next token and returns it with its byte offset. At the end
    /// of the text the token is `EOF`, however often it is taken.
    pub fn take_pos(&mut self) -> (r: LexerResult<(usize, Token<'a>)>)
        requires
            old(self).wf(),
        ensures
            final(self).wf(),
            final(self).source() == old(self).source(),
            !final(self).has_lookahead(),
            lexeme_of(r) == lex_one(old(self).source(), old(self).cursor()).0,
            final(self).cursor() == lex_one(old(self).source(), old(self).cursor()).1,
            lexeme_of(r) == old(self).pending()[0],
            r is Ok ==> final(self).pending() == advance(old(self).pending()),
    {
        proof {
            lemma_lex_one_advances(self.source(), self.cursor());
            lemma_lex_all_step(self.source(), self.cursor());
        }
        if let Some(token) = self.lookahead {
            self.lookahead = None;
            self.cursor = Ghost(self.stream.position());
            Ok(token)
        } else {
            let r = self.read_token();
            self.cursor = Ghost(self.stream.position());
            r
        }
    }

    /// Consumes the next token and returns it.
    pub fn take(&mut self) -> (r: LexerResult<Token<'a>>)
        requires
            old(self).wf(),
        ensures
            final(self).wf(),
            final(self).source() == old(self).source(),
            !final(self).has_lookahead(),
            final(self).cursor() == lex_one(old(self).source(), old(self).cursor()).1,
            token_is(r, old(self).pending()[0]),
            r is Ok ==> final(self).pending() == advance(old(self).pending()),
    {
        match self.take_pos() {
            Ok(token) => Ok(token.1),
            Err(e) => Err(e),
        }
    }

    /// The byte offset at which the underlying character stream stands.
    pub fn byte_offset(&self) -> (offset: usize)
        requires
            self.wf(),
        ensures
            offset == byte_len(self.source().take(self.stream_position())),
    {
        self.stream.byte_offset()
    }
}

/// Reads a non-empty run of decimal digits as a number, if it fits.
pub fn parse_decimal(digits: &str) -> (value: Option<i128>)
    requires
        forall|i: int| 0 <= i < digits@.len() ==> spec_is_decimal_digit(#[trigger] digits@[i]),
    ensures
        value == (if decimal_value(digits@) <= i128::MAX {
            Some(decimal_value(digits@) as i128)
        } else {
            None
        }),
{
    let mut cur = digits;
    let mut acc: i128 = 0;
    let ghost mut k: int = 0;
    proof {
        assert(digits@.take(0) =~= Seq::<char>::empty());
        assert(digits@.skip(0) =~= digits@);
    }
    while !cur.is_empty()
        invariant
            0 <= k <= digits@.len(),
            cur@ == digits@.skip(k),
            0 <= acc,
            acc == decimal_value(digits@.take(k)),
            forall|i: int| 0 <= i < digits@.len() ==> spec_is_decimal_digit(#[trigger] digits@[i]),
        decreases digits@.len() - k,
    {
        let (c, tail) = split_first(cur);
        assert(c == digits@[k]);
        let d: i128 = (c as u32 - '0' as u32) as i128;
        proof {
            assert(digits@.take(k + 1).drop_last() =~= digits@.take(k));
            assert(digits@.take(k + 1).last() == c);
            assert(digits@.skip(k + 1) =~= digits@.skip(k).drop_first());
            lemma_decimal_value_monotonic(digits@, k + 1);
        }
        if acc > (i128::MAX - d) / 10 {
            return None;
        }
        acc = acc * 10 + d;
        cur = tail;
        proof {
            k = k + 1;
        }
    }
    proof {
        assert(digits@.take(k) =~= digits@);
    }
    Some(acc)
}

} // verus!
