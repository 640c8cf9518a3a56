use toylang::parser::{ParseError, ParseErrorCtx};
use toylang::rast::{LocalId, PrimitiveType, TypeRef};
use toylang::semantic::{SemanticError, SemanticErrorCtx};
use toylang::token_stream::LexerError;
use toylang::tokens::TokenKind;
use toylang::type_checker::{TypeError, TypeErrorCtx};
use toylang::utils::ResultExt;
use toylang::{eval, run, EvalError};

#[test]
fn a_missing_terminator_is_an_unexpected_end_of_input() {
    match eval("let x = 9") {
        Err(EvalError::ParseError(ParseErrorCtx(
            9,
            ParseError::UnexpectedToken { expected, was },
        ))) => {
            assert!(expected.contains(&TokenKind::Semicolon));
            assert_eq!(TokenKind::EOF, was);
        }
        other => panic!("unexpected result: {:?}", other),
    }
}

#[test]
fn an_undeclared_name_is_an_unknown_local() {
    assert_eq!(
        Err(EvalError::SemanticError(SemanticErrorCtx(
            0,
            SemanticError::UnknownLocal {
                name: "y".to_string()
            }
        ))),
        eval("y = 1;")
    );
}

#[test]
fn a_local_of_a_block_cannot_be_used_after_the_block() {
    assert_eq!(
        Err(EvalError::SemanticError(SemanticErrorCtx(
            27,
            SemanticError::UnknownLocal {
                name: "inner".to_string()
            }
        ))),
        eval("{ let inner = 1; } let x = inner;")
    );
    assert_eq!(Ok(None), eval("{ let inner = 1; let x = inner; }"));
}

#[test]
fn a_number_for_a_bool_is_not_assignable() {
    assert_eq!(
        Err(EvalError::TypeError(TypeErrorCtx(
            11,
            TypeError::NotAssignable {
                target: TypeRef::Primitive(PrimitiveType::Bool),
                x: TypeRef::Primitive(PrimitiveType::I32)
            }
        ))),
        eval("let x = 1; let y : bool = x;")
    );
}

#[test]
fn an_unknown_type_name_is_a_resolution_error() {
    assert_eq!(
        Err(EvalError::SemanticError(SemanticErrorCtx(
            8,
            SemanticError::UnknownType {
                name: "u8".to_string()
            }
        ))),
        eval("let x : u8 = 1;")
    );
}

#[test]
fn a_lexer_error_is_a_parse_error() {
    assert_eq!(
        Err(EvalError::ParseError(ParseErrorCtx(
            9,
            ParseError::LexerError(LexerError::UnknownToken("/".to_string()))
        ))),
        eval("let x = 1/2;")
    );
    let text = "let x = 999999999999999999999999999999999999999;";
    assert_eq!(
        Err(EvalError::ParseError(ParseErrorCtx(
            8,
            ParseError::LexerError(LexerError::InvalidNumber(
                "999999999999999999999999999999999999999".to_string()
            ))
        ))),
        eval(text)
    );
}

#[test]
fn the_earliest_phase_that_fails_gives_the_error() {
    // a syntax error behind an unknown name and a type error
    assert!(matches!(
        eval("let a : bool = 1; b = 2; let"),
        Err(EvalError::ParseError(_))
    ));
    // an unknown name behind a type error
    assert!(matches!(
        eval("let a : bool = 1; b = 2;"),
        Err(EvalError::SemanticError(_))
    ));
    assert!(matches!(
        eval("let a : bool = 1;"),
        Err(EvalError::TypeError(_))
    ));
}

#[test]
fn offsets_are_bytes_from_the_start_of_the_text() {
    assert_eq!(
        Err(EvalError::SemanticError(SemanticErrorCtx(
            7,
            SemanticError::UnknownLocal {
                name: "y".to_string()
            }
        ))),
        eval("\n\n  \r\n y = 1;")
    );
}

#[test]
fn run_keeps_the_values() {
    let interpreter = run("let x = 6 * 7;").unwrap();
    assert_eq!(
        Some(toylang::interpreter::Value::I32(42)),
        interpreter.value_of(LocalId(0))
    );
    assert!(run("x = 1;").is_err());
}

#[test]
fn errors_convert_into_the_error_of_the_pipeline() {
    let parse = ParseErrorCtx(
        1,
        ParseError::UnexpectedToken {
            expected: vec![],
            was: TokenKind::EOF,
        },
    );
    let converted: EvalError = parse.into();
    assert!(matches!(converted, EvalError::ParseError(ParseErrorCtx(1, _))));
    let semantic = SemanticErrorCtx(
        2,
        SemanticError::UnknownLocal {
            name: "n".to_string(),
        },
    );
    let converted: EvalError = semantic.into();
    assert!(matches!(converted, EvalError::SemanticError(SemanticErrorCtx(2, _))));
    let type_error = TypeErrorCtx(
        3,
        TypeError::UntypedLocal {
            local_id: LocalId(0),
        },
    );
    assert_eq!(
        EvalError::TypeError(TypeErrorCtx(
            3,
            TypeError::UntypedLocal {
                local_id: LocalId(0)
            }
        )),
        EvalError::from(type_error)
    );
}

#[test]
fn result_errors_can_be_converted_and_replaced() {
    let failed: Result<u8, TypeErrorCtx> = Err(TypeErrorCtx(
        4,
        TypeError::UntypedLocal {
            local_id: LocalId(1),
        },
    ));
    let converted: Result<u8, EvalError> = failed.err_into();
    assert!(matches!(
        converted,
        Err(EvalError::TypeError(TypeErrorCtx(4, _)))
    ));
    let fine: Result<u8, TypeErrorCtx> = Ok(5);
    let converted: Result<u8, EvalError> = fine.err_into();
    assert_eq!(Ok(5), converted);

    let failed: Result<u8, &str> = Err("gone");
    assert_eq!(Err(404), failed.with_err(404));
    let fine: Result<u8, &str> = Ok(1);
    assert_eq!(Ok(1), fine.with_err(404));
}
