use toylang::token_stream::{parse_decimal, LexerError, LexerErrorCtx, TokenStream};
use toylang::tokens::{Token, TokenKind};

#[test]
fn read_seq() {
    let mut stream = TokenStream::new("let x = 10");
    assert_eq!(Ok(Token::Let), stream.take());
    assert_eq!(Ok(Token::Identifier("x")), stream.take());
    assert_eq!(Ok(Token::Equals), stream.take());
    assert_eq!(Ok(Token::Integer(10)), stream.take());
    assert_eq!(Ok(Token::EOF), stream.take());
}

#[test]
fn tokens_carry_the_byte_offset_of_their_first_character() {
    let mut stream = TokenStream::new("let  mut_x\n= (10+2);");
    assert_eq!(Ok((0, Token::Let)), stream.take_pos());
    assert_eq!(Ok((5, Token::Identifier("mut_x"))), stream.take_pos());
    assert_eq!(Ok((11, Token::Equals)), stream.take_pos());
    assert_eq!(Ok((13, Token::LParen)), stream.take_pos());
    assert_eq!(Ok((14, Token::Integer(10))), stream.take_pos());
    assert_eq!(Ok((16, Token::Plus)), stream.take_pos());
    assert_eq!(Ok((17, Token::Integer(2))), stream.take_pos());
    assert_eq!(Ok((18, Token::RParen)), stream.take_pos());
    assert_eq!(Ok((19, Token::Semicolon)), stream.take_pos());
    assert_eq!(Ok((20, Token::EOF)), stream.take_pos());
}

#[test]
fn every_punctuation_character_is_its_own_token() {
    let mut stream = TokenStream::new("(){}=;:+-*");
    let expected = [
        Token::LParen,
        Token::RParen,
        Token::LBrace,
        Token::RBrace,
        Token::Equals,
        Token::Semicolon,
        Token::Colon,
        Token::Plus,
        Token::Minus,
        Token::Asterisk,
    ];
    for (i, token) in expected.iter().enumerate() {
        assert_eq!(Ok((i, *token)), stream.take_pos());
    }
    assert_eq!(Ok((10, Token::EOF)), stream.take_pos());
}

#[test]
fn end_of_input_is_given_again_and_again() {
    let mut stream = TokenStream::new("x  ");
    assert_eq!(Ok((0, Token::Identifier("x"))), stream.take_pos());
    assert_eq!(Ok((3, Token::EOF)), stream.take_pos());
    assert_eq!(Ok((3, Token::EOF)), stream.take_pos());
    assert_eq!(Ok(&(3, Token::EOF)), stream.peek_pos());
    assert_eq!(Ok(Token::EOF), stream.take());
    assert_eq!(Ok(&Token::EOF), stream.peek());
}

#[test]
fn empty_text_is_end_of_input() {
    let mut stream = TokenStream::new("");
    assert_eq!(Ok(&(0, Token::EOF)), stream.peek_pos());
    assert_eq!(Ok((0, Token::EOF)), stream.take_pos());
}

#[test]
fn peek_does_not_consume_and_take_returns_the_peeked_token() {
    let mut stream = TokenStream::new("a b");
    assert_eq!(Ok(&Token::Identifier("a")), stream.peek());
    assert_eq!(Ok(&(0, Token::Identifier("a"))), stream.peek_pos());
    assert_eq!(Ok((0, Token::Identifier("a"))), stream.take_pos());
    assert_eq!(Ok(&(2, Token::Identifier("b"))), stream.peek_pos());
    assert_eq!(Ok(Token::Identifier("b")), stream.take());
    assert_eq!(Ok(&Token::EOF), stream.peek());
}

#[test]
fn byte_offset_is_behind_a_peeked_token() {
    let mut stream = TokenStream::new("  abc def");
    assert_eq!(0, stream.byte_offset());
    assert_eq!(Ok(&Token::Identifier("abc")), stream.peek());
    assert_eq!(5, stream.byte_offset());
    assert_eq!(Ok(Token::Identifier("abc")), stream.take());
    assert_eq!(5, stream.byte_offset());
}

#[test]
fn keywords_are_whole_words() {
    let mut stream = TokenStream::new("let mut letter mutable _let let1 Let");
    assert_eq!(Ok(Token::Let), stream.take());
    assert_eq!(Ok(Token::Mut), stream.take());
    assert_eq!(Ok(Token::Identifier("letter")), stream.take());
    assert_eq!(Ok(Token::Identifier("mutable")), stream.take());
    assert_eq!(Ok(Token::Identifier("_let")), stream.take());
    assert_eq!(Ok(Token::Identifier("let1")), stream.take());
    assert_eq!(Ok(Token::Identifier("Let")), stream.take());
    assert_eq!(Ok(Token::EOF), stream.take());
}

#[test]
fn a_number_is_a_maximal_run_of_digits() {
    let mut stream = TokenStream::new("007abc 12 3");
    assert_eq!(Ok((0, Token::Integer(7))), stream.take_pos());
    assert_eq!(Ok((3, Token::Identifier("abc"))), stream.take_pos());
    assert_eq!(Ok((7, Token::Integer(12))), stream.take_pos());
    assert_eq!(Ok((10, Token::Integer(3))), stream.take_pos());
}

#[test]
fn the_largest_number_is_the_largest_128_bit_integer() {
    let mut stream = TokenStream::new("170141183460469231731687303715884105727");
    assert_eq!(Ok(Token::Integer(i128::MAX)), stream.take());
    assert_eq!(Ok(Token::EOF), stream.take());
}

#[test]
fn a_number_that_does_not_fit_is_an_invalid_number() {
    let text = "170141183460469231731687303715884105728";
    let mut stream = TokenStream::new("  170141183460469231731687303715884105728;");
    assert_eq!(
        Err(LexerErrorCtx(2, LexerError::InvalidNumber(text.to_string()))),
        stream.take()
    );
    // the digits were consumed
    assert_eq!(Ok(Token::Semicolon), stream.take());
}

#[test]
fn a_very_long_number_is_an_invalid_number() {
    let text = "9".repeat(200);
    let mut stream = TokenStream::new(&text);
    assert_eq!(
        Err(LexerErrorCtx(0, LexerError::InvalidNumber(text.clone()))),
        stream.peek().map(|t| *t)
    );
}

#[test]
fn a_character_that_starts_no_token_is_an_unknown_token() {
    let mut stream = TokenStream::new("a ? b");
    assert_eq!(Ok(Token::Identifier("a")), stream.take());
    assert_eq!(
        Err(LexerErrorCtx(2, LexerError::UnknownToken("?".to_string()))),
        stream.take()
    );
    // the character is not consumed
    assert_eq!(
        Err(LexerErrorCtx(2, LexerError::UnknownToken("?".to_string()))),
        stream.peek_pos().map(|t| t.1)
    );
}

#[test]
fn tab_brackets_and_non_ascii_letters_are_unknown_tokens() {
    for (text, offending) in [("\t", "\t"), ("[", "["), ("`", "`"), ("é", "é"), ("==", "")] {
        let mut stream = TokenStream::new(text);
        if offending.is_empty() {
            assert_eq!(Ok(Token::Equals), stream.take());
            assert_eq!(Ok(Token::Equals), stream.take());
        } else {
            assert_eq!(
                Err(LexerErrorCtx(0, LexerError::UnknownToken(offending.to_string()))),
                stream.take()
            );
        }
    }
}

#[test]
fn the_offset_of_an_error_is_in_bytes() {
    let mut stream = TokenStream::new("x   😀");
    assert_eq!(Ok(Token::Identifier("x")), stream.take());
    assert_eq!(
        Err(LexerErrorCtx(4, LexerError::UnknownToken("😀".to_string()))),
        stream.take()
    );
}

#[test]
fn to_kind_drops_the_payload() {
    assert_eq!(TokenKind::Identifier, Token::Identifier("abc").to_kind());
    assert_eq!(TokenKind::Integer, Token::Integer(5).to_kind());
    assert_eq!(TokenKind::Let, Token::Let.to_kind());
    assert_eq!(TokenKind::Mut, Token::Mut.to_kind());
    assert_eq!(TokenKind::Equals, Token::Equals.to_kind());
    assert_eq!(TokenKind::LParen, Token::LParen.to_kind());
    assert_eq!(TokenKind::RParen, Token::RParen.to_kind());
    assert_eq!(TokenKind::LBrace, Token::LBrace.to_kind());
    assert_eq!(TokenKind::RBrace, Token::RBrace.to_kind());
    assert_eq!(TokenKind::Colon, Token::Colon.to_kind());
    assert_eq!(TokenKind::Semicolon, Token::Semicolon.to_kind());
    assert_eq!(TokenKind::Plus, Token::Plus.to_kind());
    assert_eq!(TokenKind::Minus, Token::Minus.to_kind());
    assert_eq!(TokenKind::Asterisk, Token::Asterisk.to_kind());
    assert_eq!(TokenKind::EOF, Token::EOF.to_kind());
}

#[test]
fn parse_decimal_reads_digits() {
    assert_eq!(Some(0), parse_decimal("0"));
    assert_eq!(Some(0), parse_decimal("000"));
    assert_eq!(Some(1234567890), parse_decimal("1234567890"));
    assert_eq!(Some(i128::MAX), parse_decimal("170141183460469231731687303715884105727"));
    assert_eq!(None, parse_decimal("170141183460469231731687303715884105728"));
    assert_eq!(None, parse_decimal("1701411834604692317316873037158841057270"));
}
