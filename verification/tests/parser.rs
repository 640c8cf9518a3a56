use toylang::ast::Expression::{BinaryOp, IntegerConstant, Local, UnaryOp};
use toylang::ast::Statement::{AssignLocal, Block, DeclareVariable};
use toylang::ast::{ExpressionCtx, IdentifierCtx, Program, StatementCtx};
use toylang::ast_common::{BinaryOperator, Operator, UnaryOperator};
use toylang::parser::{ParseError, ParseErrorCtx, Parser};
use toylang::token_stream::{LexerError, TokenStream};
use toylang::tokens::{Token, TokenKind};

#[test]
fn parse_declaration() {
    let mut parser = Parser {
        lexer: &mut TokenStream::new("let x = 10;"),
    };

    let statement = parser.parse_statement();

    match statement {
        Ok(StatementCtx(
            0,
            DeclareVariable {
                ref name,
                is_mutable: false,
                initial_type: None,
                initial_value: ExpressionCtx(8, IntegerConstant(10)),
            },
        )) if name.1 == "x" => {}
        _ => panic!("Unexpected AST: {:#?}", statement),
    };
}

#[test]
fn parse_declaration_with_type_annotation() {
    let mut parser = Parser {
        lexer: &mut TokenStream::new("let x : i32 = 10;"),
    };

    let statement = parser.parse_statement();

    match statement {
        Ok(StatementCtx(
            0,
            DeclareVariable {
                name: IdentifierCtx(4, ref name),
                is_mutable: false,
                initial_type: Some(IdentifierCtx(8, ref annotated)),
                initial_value: ExpressionCtx(14, IntegerConstant(10)),
            },
        )) if name == "x" && annotated == "i32" => {}
        _ => panic!("Unexpected AST: {:#?}", statement),
    };
}

#[test]
fn parse_mut_declaration() {
    let mut parser = Parser {
        lexer: &mut TokenStream::new("let mut mutable_x = 0;"),
    };

    let statement = parser.parse_statement();

    match statement {
        Ok(StatementCtx(
            0,
            DeclareVariable {
                name: IdentifierCtx(8, ref name),
                is_mutable: true,
                initial_type: None,
                initial_value: ExpressionCtx(20, IntegerConstant(0)),
            },
        )) if name == "mutable_x" => {}
        _ => panic!("Unexpected AST: {:#?}", statement),
    };
}

#[test]
fn parse_block() {
    let mut parser = Parser {
        lexer: &mut TokenStream::new("{ let x = 0; }"),
    };

    let statement = parser.parse_statement();

    assert_eq!(
        Ok(StatementCtx(
            0,
            Block {
                inner: vec![StatementCtx(
                    2,
                    DeclareVariable {
                        name: IdentifierCtx(6, "x".to_string()),
                        initial_type: None,
                        is_mutable: false,
                        initial_value: ExpressionCtx(10, IntegerConstant(0))
                    }
                )]
            }
        )),
        statement
    );
}

fn parse(text: &str) -> Result<Program, ParseErrorCtx> {
    let mut lexer = TokenStream::new(text);
    let mut parser = Parser::new(&mut lexer);
    parser.parse_program()
}

/// The value of the one declaration that `text` consists of.
fn initial_value(text: &str) -> ExpressionCtx {
    match parse(text) {
        Ok(Program(mut statements)) if statements.len() == 1 => match statements.remove(0) {
            StatementCtx(_, DeclareVariable { initial_value, .. }) => initial_value,
            other => panic!("no declaration: {:#?}", other),
        },
        other => panic!("no single statement: {:#?}", other),
    }
}

fn literal(offset: usize, value: i128) -> ExpressionCtx {
    ExpressionCtx(offset, IntegerConstant(value))
}

fn binary(offset: usize, op: BinaryOperator, lhs: ExpressionCtx, rhs: ExpressionCtx) -> ExpressionCtx {
    ExpressionCtx(offset, BinaryOp(op, Box::new((lhs, rhs))))
}

fn unexpected(offset: usize, expected: Vec<TokenKind>, was: TokenKind) -> ParseErrorCtx {
    ParseErrorCtx(offset, ParseError::UnexpectedToken { expected, was })
}

#[test]
fn multiplication_binds_tighter_than_addition() {
    // let x = 2 + 3 * 4;
    // 0123456789
    assert_eq!(
        binary(
            8,
            BinaryOperator::Add,
            literal(8, 2),
            binary(12, BinaryOperator::Mul, literal(12, 3), literal(16, 4))
        ),
        initial_value("let x = 2 + 3 * 4;")
    );
    assert_eq!(
        binary(
            8,
            BinaryOperator::Add,
            binary(8, BinaryOperator::Mul, literal(8, 2), literal(12, 3)),
            literal(16, 4)
        ),
        initial_value("let x = 2 * 3 + 4;")
    );
}

#[test]
fn binary_operators_associate_to_the_left() {
    assert_eq!(
        binary(
            8,
            BinaryOperator::Sub,
            binary(8, BinaryOperator::Sub, literal(8, 10), literal(13, 3)),
            literal(17, 2)
        ),
        initial_value("let x = 10 - 3 - 2;")
    );
    assert_eq!(
        binary(
            8,
            BinaryOperator::Mul,
            binary(8, BinaryOperator::Mul, literal(8, 2), literal(12, 3)),
            literal(16, 4)
        ),
        initial_value("let x = 2 * 3 * 4;")
    );
    assert_eq!(
        binary(
            8,
            BinaryOperator::Add,
            binary(8, BinaryOperator::Sub, literal(8, 1), literal(12, 2)),
            literal(16, 3)
        ),
        initial_value("let x = 1 - 2 + 3;")
    );
}

#[test]
fn a_sum_of_products_groups_each_product() {
    // 1 * 2 + 3 * 4 - 5 * 6
    let text = "let x = 1 * 2 + 3 * 4 - 5 * 6;";
    let first_product = binary(8, BinaryOperator::Mul, literal(8, 1), literal(12, 2));
    let second_product = binary(16, BinaryOperator::Mul, literal(16, 3), literal(20, 4));
    let third_product = binary(24, BinaryOperator::Mul, literal(24, 5), literal(28, 6));
    assert_eq!(
        binary(
            8,
            BinaryOperator::Sub,
            binary(8, BinaryOperator::Add, first_product, second_product),
            third_product
        ),
        initial_value(text)
    );
}

#[test]
fn parentheses_override_precedence_and_leave_no_node() {
    // let x = (2 + 3) * 4;
    assert_eq!(
        binary(
            9,
            BinaryOperator::Mul,
            binary(9, BinaryOperator::Add, literal(9, 2), literal(13, 3)),
            literal(18, 4)
        ),
        initial_value("let x = (2 + 3) * 4;")
    );
    assert_eq!(literal(10, 7), initial_value("let x = ((7));"));
    assert_eq!(
        binary(
            8,
            BinaryOperator::Sub,
            literal(8, 10),
            binary(14, BinaryOperator::Sub, literal(14, 3), literal(18, 2))
        ),
        initial_value("let x = 10 - (3 - 2);")
    );
}

#[test]
fn negation_applies_to_one_primary() {
    assert_eq!(
        binary(
            8,
            BinaryOperator::Add,
            ExpressionCtx(8, UnaryOp(UnaryOperator::Negate, Box::new(literal(9, 2)))),
            literal(13, 3)
        ),
        initial_value("let x = -2 + 3;")
    );
    assert_eq!(
        binary(
            8,
            BinaryOperator::Mul,
            ExpressionCtx(8, UnaryOp(UnaryOperator::Negate, Box::new(literal(9, 2)))),
            literal(13, 3)
        ),
        initial_value("let x = -2 * 3;")
    );
    assert_eq!(
        ExpressionCtx(
            8,
            UnaryOp(
                UnaryOperator::Negate,
                Box::new(ExpressionCtx(
                    10,
                    UnaryOp(UnaryOperator::Negate, Box::new(literal(11, 2)))
                ))
            )
        ),
        initial_value("let x = - -2;")
    );
    assert_eq!(
        binary(
            8,
            BinaryOperator::Sub,
            literal(8, 1),
            ExpressionCtx(
                12,
                UnaryOp(
                    UnaryOperator::Negate,
                    Box::new(binary(14, BinaryOperator::Add, literal(14, 2), literal(18, 3)))
                )
            )
        ),
        initial_value("let x = 1 - -(2 + 3);")
    );
}

#[test]
fn names_are_expressions() {
    assert_eq!(
        binary(
            8,
            BinaryOperator::Add,
            ExpressionCtx(8, Local("abc".to_string())),
            ExpressionCtx(14, Local("_d1".to_string()))
        ),
        initial_value("let x = abc + _d1;")
    );
}

#[test]
fn an_assignment_carries_the_offset_of_its_name() {
    assert_eq!(
        Ok(Program(vec![StatementCtx(
            2,
            AssignLocal {
                local: IdentifierCtx(2, "y".to_string()),
                value: literal(6, 1)
            }
        )])),
        parse("  y = 1;")
    );
}

#[test]
fn a_program_is_a_sequence_of_statements() {
    assert_eq!(Ok(Program(vec![])), parse(""));
    assert_eq!(Ok(Program(vec![])), parse(" \n\r "));
    let program = parse("let a = 1; { a = 2; { } } a = 3;").unwrap();
    assert_eq!(3, program.0.len());
    assert_eq!(
        StatementCtx(
            11,
            Block {
                inner: vec![
                    StatementCtx(
                        13,
                        AssignLocal {
                            local: IdentifierCtx(13, "a".to_string()),
                            value: literal(17, 2)
                        }
                    ),
                    StatementCtx(20, Block { inner: vec![] })
                ]
            }
        ),
        program.0[1]
    );
}

#[test]
fn a_mutable_typed_declaration_has_all_parts() {
    assert_eq!(
        Ok(Program(vec![StatementCtx(
            0,
            DeclareVariable {
                name: IdentifierCtx(8, "b".to_string()),
                is_mutable: true,
                initial_type: Some(IdentifierCtx(12, "bool".to_string())),
                initial_value: literal(19, 0)
            }
        )])),
        parse("let mut b : bool = 0;")
    );
}

#[test]
fn a_missing_expression_names_the_tokens_an_expression_starts_with() {
    assert_eq!(
        Err(unexpected(
            8,
            vec![
                TokenKind::Minus,
                TokenKind::Integer,
                TokenKind::Identifier,
                TokenKind::LParen
            ],
            TokenKind::Semicolon
        )),
        parse("let x = ;")
    );
    assert_eq!(
        Err(unexpected(
            12,
            vec![
                TokenKind::Minus,
                TokenKind::Integer,
                TokenKind::Identifier,
                TokenKind::LParen
            ],
            TokenKind::Asterisk
        )),
        parse("let x = 1 + * 2;")
    );
    assert_eq!(
        Err(unexpected(
            9,
            vec![
                TokenKind::Minus,
                TokenKind::Integer,
                TokenKind::Identifier,
                TokenKind::LParen
            ],
            TokenKind::EOF
        )),
        parse("let x = -")
    );
}

#[test]
fn a_missing_token_names_the_one_that_is_expected() {
    assert_eq!(
        Err(unexpected(4, vec![TokenKind::Identifier], TokenKind::Equals)),
        parse("let = 1;")
    );
    assert_eq!(
        Err(unexpected(6, vec![TokenKind::Equals], TokenKind::Integer)),
        parse("let x 1;")
    );
    assert_eq!(
        Err(unexpected(2, vec![TokenKind::Equals], TokenKind::Integer)),
        parse("x 1;")
    );
    assert_eq!(
        Err(unexpected(14, vec![TokenKind::RParen], TokenKind::Semicolon)),
        parse("let x = (1 + 2;")
    );
    assert_eq!(
        Err(unexpected(10, vec![TokenKind::Semicolon], TokenKind::Integer)),
        parse("let x = 1 2;")
    );
    assert_eq!(
        Err(unexpected(10, vec![TokenKind::Semicolon], TokenKind::Equals)),
        parse("let x = 1 == 2;")
    );
    assert_eq!(
        Err(unexpected(8, vec![TokenKind::Identifier], TokenKind::Integer)),
        parse("let x : 5 = 1;")
    );
    assert_eq!(
        Err(unexpected(8, vec![TokenKind::Identifier], TokenKind::Mut)),
        parse("let mut mut x = 1;")
    );
}

#[test]
fn a_token_that_starts_no_statement_is_unexpected() {
    let starts = vec![TokenKind::Let, TokenKind::LBrace, TokenKind::Identifier];
    assert_eq!(
        Err(unexpected(0, starts.clone(), TokenKind::Integer)),
        parse("1;")
    );
    assert_eq!(
        Err(unexpected(11, starts.clone(), TokenKind::Semicolon)),
        parse("let x = 1; ;")
    );
    assert_eq!(
        Err(unexpected(0, starts.clone(), TokenKind::RBrace)),
        parse("}")
    );
    // a block that is not closed runs into the end of input
    assert_eq!(
        Err(unexpected(12, starts.clone(), TokenKind::EOF)),
        parse("{ let x = 1;")
    );
    let mut lexer = TokenStream::new("= 1");
    let mut parser = Parser::new(&mut lexer);
    assert_eq!(
        Err(unexpected(0, starts, TokenKind::Equals)),
        parser.parse_statement()
    );
}

#[test]
fn a_lexer_error_is_passed_on_with_its_offset() {
    assert_eq!(
        Err(ParseErrorCtx(
            10,
            ParseError::LexerError(LexerError::UnknownToken("?".to_string()))
        )),
        parse("let x = 1 ? 2;")
    );
    assert_eq!(
        Err(ParseErrorCtx(
            0,
            ParseError::LexerError(LexerError::UnknownToken("#".to_string()))
        )),
        parse("# comment")
    );
    assert_eq!(
        Err(ParseErrorCtx(
            4,
            ParseError::LexerError(LexerError::UnknownToken("$".to_string()))
        )),
        parse("let $x = 1;")
    );
    let big = "340282366920938463463374607431768211456";
    assert_eq!(
        Err(ParseErrorCtx(
            12,
            ParseError::LexerError(LexerError::InvalidNumber(big.to_string()))
        )),
        parse("let x = 1 + 340282366920938463463374607431768211456;")
    );
    assert_eq!(
        Err(ParseErrorCtx(
            2,
            ParseError::LexerError(LexerError::UnknownToken("@".to_string()))
        )),
        parse("{ @ }")
    );
}

#[test]
fn parse_block_wants_an_opening_brace() {
    let mut lexer = TokenStream::new("let x = 1;");
    let mut parser = Parser::new(&mut lexer);
    assert_eq!(
        Err(unexpected(0, vec![TokenKind::LBrace], TokenKind::Let)),
        parser.parse_block()
    );
}

#[test]
fn parse_statement_takes_one_statement_and_leaves_the_rest() {
    let mut lexer = TokenStream::new("a = 1; b = 2;");
    {
        let mut parser = Parser { lexer: &mut lexer };
        let first = parser.parse_statement().unwrap();
        assert_eq!(0, first.0);
        let second = parser.parse_statement().unwrap();
        assert_eq!(7, second.0);
        assert!(parser.parse_statement().is_err());
    }
}

#[test]
fn take_of_checks_the_kind() {
    let mut lexer = TokenStream::new("let x 5");
    assert_eq!(Ok((0, Token::Let)), lexer.take_of(TokenKind::Let));
    assert_eq!(
        Err(unexpected(4, vec![TokenKind::Integer], TokenKind::Identifier)),
        lexer.take_of(TokenKind::Integer)
    );
    // the token was consumed all the same
    assert_eq!(Ok((6, Token::Integer(5))), lexer.take_of(TokenKind::Integer));
    assert_eq!(Ok((7, Token::EOF)), lexer.take_of(TokenKind::EOF));
    assert_eq!(Ok((7, Token::EOF)), lexer.take_of(TokenKind::EOF));
}

#[test]
fn take_identifier_and_take_integer_give_the_payload() {
    let mut lexer = TokenStream::new("abc 42 abc 42");
    assert_eq!(
        Ok((0, IdentifierCtx(0, "abc".to_string()))),
        lexer.take_identifier()
    );
    assert_eq!(Ok((4, 42)), lexer.take_integer());
    assert_eq!(
        Err(unexpected(7, vec![TokenKind::Integer], TokenKind::Identifier)),
        lexer.take_integer()
    );
    assert_eq!(
        Err(unexpected(11, vec![TokenKind::Identifier], TokenKind::Integer)),
        lexer.take_identifier()
    );
}

#[test]
fn precedences_are_as_the_grammar_has_them() {
    assert_eq!(3, BinaryOperator::Mul.get_precedence());
    assert_eq!(2, BinaryOperator::Add.get_precedence());
    assert_eq!(2, BinaryOperator::Sub.get_precedence());
    assert_eq!(0, BinaryOperator::Equals.get_precedence());
    assert_eq!(3, Operator::Binary(BinaryOperator::Mul).get_precedence());
    assert_eq!(2, Operator::Binary(BinaryOperator::Add).get_precedence());
    assert_eq!(2, Operator::Binary(BinaryOperator::Sub).get_precedence());
    assert_eq!(1, Operator::Unary(UnaryOperator::Negate).get_precedence());
    assert_eq!(0, Operator::Binary(BinaryOperator::Equals).get_precedence());
}
