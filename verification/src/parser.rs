//! The parser: recursive descent for statements, precedence climbing for
//! expressions. Each function is proved to give what the grammar says.

use vstd::prelude::*;
use vstd::string::*;

use crate::ast::{
    lemma_block_view, statements_view, ExprModel, Expression, ExpressionCtx, IdentifierCtx,
    Program, Statement, StatementCtx, StmtModel,
};
use crate::ast_common::{BinaryOperator, Operator, UnaryOperator};
use crate::grammar::{
    binary_operator, failure_at, join, lemma_advance_stream, lemma_block_is_statement,
    lemma_expression_consumes, lemma_expression_token_consumes, lemma_product_consumes,
    lemma_product_tail_consumes, lemma_statement_consumes, operator_at, prepend, primary_starts,
    spec_assignment, spec_block, spec_block_items, spec_declaration, spec_expression,
    spec_expression_opp, spec_expression_token, spec_initializer, spec_product,
    spec_product_tail, spec_program, spec_statement, spec_take_identifier, spec_take_integer,
    spec_take_of, statement_starts, ParseErrorModel, ParseFailure, Parsed,
};
use crate::token_stream::{lex_one, Lexeme, LexerError, LexerErrorCtx, TokenStream};
use crate::tokens::{Token, TokenKind};

verus! {

#[derive(Debug, Eq, PartialEq)]
pub enum ParseError {
    LexerError(LexerError),
    UnexpectedToken { expected: Vec<TokenKind>, was: TokenKind },
}

impl View for ParseError {
    type V = ParseErrorModel;

    open spec fn view(&self) -> ParseErrorModel {
        match self {
            ParseError::LexerError(error) => ParseErrorModel::LexerError(error@),
            ParseError::UnexpectedToken { expected, was } => ParseErrorModel::UnexpectedToken {
                expected: expected@,
                was: *was,
            },
        }
    }
}

/// A parse error with the byte offset at which it was found.
#[derive(Debug, Eq, PartialEq)]
pub struct ParseErrorCtx(pub usize, pub ParseError);

impl View for ParseErrorCtx {
    type V = ParseFailure;

    open spec fn view(&self) -> ParseFailure {
        ParseFailure { offset: self.0, error: self.1@ }
    }
}

impl From<LexerErrorCtx> for ParseErrorCtx {
    fn from(x: LexerErrorCtx) -> (r: ParseErrorCtx) {
        ParseErrorCtx(x.0, ParseError::LexerError(x.1))
    }
}

impl vstd::std_specs::convert::FromSpecImpl<LexerErrorCtx> for ParseErrorCtx {
    open spec fn obeys_from_spec() -> bool {
        true
    }

    open spec fn from_spec(x: LexerErrorCtx) -> ParseErrorCtx {
        ParseErrorCtx(x.0, ParseError::LexerError(x.1))
    }
}

pub type ParseResult<T> = Result<T, ParseErrorCtx>;

/// A result of the parser, with the lexemes that the lexer has left, is what
/// the grammar gives: the same value and the same lexemes left, or the same
/// failure.
pub open spec fn agrees<T: View>(
    r: ParseResult<T>,
    left: Seq<Lexeme>,
    expected: Parsed<T::V>,
) -> bool {
    match (r, expected) {
        (Ok(value), Ok((model, rest))) => value@ == model && left == rest,
        (Err(error), Err(failure)) => error@ == failure,
        _ => false,
    }
}

/// The same for a sequence of statements.
pub open spec fn statements_agree(
    r: ParseResult<Vec<StatementCtx>>,
    left: Seq<Lexeme>,
    expected: Parsed<Seq<StmtModel>>,
) -> bool {
    match (r, expected) {
        (Ok(statements), Ok((models, rest))) => statements_view(statements@) == models && left
            == rest,
        (Err(error), Err(failure)) => error@ == failure,
        _ => false,
    }
}

/// The error for a token that stands where one of the kinds `expected` has to.
fn unexpected(offset: usize, expected: Vec<TokenKind>, token: Token) -> (e: ParseErrorCtx)
    ensures
        e@ == failure_at(Lexeme::Token(offset, token@), expected@),
{
    ParseErrorCtx(offset, ParseError::UnexpectedToken { expected, was: token.to_kind() })
}

/// The binary operator that a token stands for.
fn as_op(token: Token) -> (op: Option<Operator>)
    ensures
        op == (match binary_operator(token@) {
            Some(binary) => Some(Operator::Binary(binary)),
            None => None,
        }),
{
    match token {
        Token::Plus => Some(Operator::Binary(BinaryOperator::Add)),
        Token::Minus => Some(Operator::Binary(BinaryOperator::Sub)),
        Token::Asterisk => Some(Operator::Binary(BinaryOperator::Mul)),
        _ => None,
    }
}

impl<'a> TokenStream<'a> {
    /// Takes one token, which has to be of the given kind.
    pub fn take_of(&mut self, kind: TokenKind) -> (r: ParseResult<(usize, Token<'a>)>)
        requires
            old(self).wf(),
        ensures
            final(self).wf(),
            final(self).source() == old(self).source(),
            agrees(r, final(self).pending(), spec_take_of(old(self).pending(), kind)),
            final(self).cursor() == lex_one(old(self).source(), old(self).cursor()).1,
    {
        let token = match self.take_pos() {
            Ok(token) => token,
            Err(e) => {
                return Err(ParseErrorCtx::from(e));
            },
        };
        let token_kind = token.1.to_kind();
        if token_kind == kind {
            Ok(token)
        } else {
            let expected = vec![kind];
            assert(expected@ =~= seq![kind]);
            Err(unexpected(token.0, expected, token.1))
        }
    }

    /// Takes one identifier.
    pub fn take_identifier(&mut self) -> (r: ParseResult<(usize, IdentifierCtx)>)
        requires
            old(self).wf(),
        ensures
            final(self).wf(),
            final(self).source() == old(self).source(),
            agrees(r, final(self).pending(), spec_take_identifier(old(self).pending())),
            final(self).cursor() == lex_one(old(self).source(), old(self).cursor()).1,
    {
        match self.take_of(TokenKind::Identifier) {
            Ok(token) => match token.1 {
                Token::Identifier(name) => Ok(
                    (token.0, IdentifierCtx(token.0, String::from_str(name))),
                ),
                _ => {
                    let expected = vec![TokenKind::Identifier];
                    Err(unexpected(token.0, expected, token.1))
                },
            },
            Err(e) => Err(e),
        }
    }

    /// Takes one integer literal.
    pub fn take_integer(&mut self) -> (r: ParseResult<(usize, i128)>)
        requires
            old(self).wf(),
        ensures
            final(self).wf(),
            final(self).source() == old(self).source(),
            agrees(r, final(self).pending(), spec_take_integer(old(self).pending())),
            final(self).cursor() == lex_one(old(self).source(), old(self).cursor()).1,
    {
        match self.take_of(TokenKind::Integer) {
            Ok(token) => match token.1 {
                Token::Integer(value) => Ok((token.0, value)),
                _ => {
                    let expected = vec![TokenKind::Integer];
                    Err(unexpected(token.0, expected, token.1))
                },
            },
            Err(e) => Err(e),
        }
    }
}

/// A parser on top of a lexer.
pub struct Parser<'a> {
    pub lexer: &'a mut TokenStream<'a>,
}

impl<'a> Parser<'a> {
    /// The lexer below is in a consistent state.
    pub open spec fn wf(&self) -> bool {
        self.lexer.wf()
    }

    /// The lexemes still to come.
    pub open spec fn pending(&self) -> Seq<Lexeme> {
        self.lexer.pending()
    }

    pub fn new(lexer: &'a mut TokenStream<'a>) -> (parser: Parser<'a>)
        ensures
            parser.wf() == old(lexer).wf(),
            parser.pending() == old(lexer).pending(),
    {
        Parser { lexer }
    }

    /// Parses a primary expression.
    fn parse_expression_token(&mut self) -> (r: ParseResult<ExpressionCtx>)
        requires
            old(self).wf(),
        ensures
            final(self).wf(),
            agrees(r, final(self).pending(), spec_expression_token(old(self).pending())),
            r is Ok ==> final(self).pending().len() < old(self).pending().len(),
        decreases old(self).pending().len(), 0int,
    {
        proof {
            self.lexer.lemma_pending_is_stream();
            lemma_advance_stream(self.pending());
            lemma_expression_token_consumes(self.pending());
        }
        let (pos, first) = match self.lexer.take_pos() {
            Ok(token) => token,
            Err(e) => {
                return Err(ParseErrorCtx::from(e));
            },
        };

        match first {
            Token::Minus => {
                let arg = match self.parse_expression_token() {
                    Ok(arg) => arg,
                    Err(e) => {
                        return Err(e);
                    },
                };
                Ok(ExpressionCtx(pos, Expression::UnaryOp(UnaryOperator::Negate, Box::new(arg))))
            },
            Token::Integer(i) => Ok(ExpressionCtx(pos, Expression::IntegerConstant(i))),
            Token::Identifier(x) => Ok(ExpressionCtx(pos, Expression::Local(String::from_str(x)))),
            Token::LParen => {
                let inner = match self.parse_expression() {
                    Ok(inner) => inner,
                    Err(e) => {
                        return Err(e);
                    },
                };
                match self.lexer.take_of(TokenKind::RParen) {
                    Ok(_) => Ok(inner),
                    Err(e) => Err(e),
                }
            },
            _ => {
                let expected = vec![
                    TokenKind::Minus,
                    TokenKind::Integer,
                    TokenKind::Identifier,
                    TokenKind::LParen,
                ];
                assert(expected@ =~= primary_starts());
                Err(unexpected(pos, expected, first))
            },
        }
    }

    /// Parses an expression.
    fn parse_expression(&mut self) -> (r: ParseResult<ExpressionCtx>)
        requires
            old(self).wf(),
        ensures
            final(self).wf(),
            agrees(r, final(self).pending(), spec_expression(old(self).pending())),
            r is Ok ==> final(self).pending().len() < old(self).pending().len(),
        decreases old(self).pending().len(), 2int,
    {
        proof {
            self.lexer.lemma_pending_is_stream();
            lemma_expression_token_consumes(self.pending());
            lemma_expression_consumes(self.pending());
        }
        let lhs = match self.parse_expression_token() {
            Ok(lhs) => lhs,
            Err(e) => {
                return Err(e);
            },
        };
        self.parse_expression_opp(lhs, 0)
    }

    /// Goes on with an expression whose first operand is `lhs`, by precedence
    /// climbing: as long as a binary operator of precedence `min_precedence`
    /// or more follows, takes it, parses its right operand, which holds
    /// every operator that binds tighter, and joins both to the left.
    fn parse_expression_opp(&mut self, lhs: ExpressionCtx, min_precedence: i32) -> (r:
        ParseResult<ExpressionCtx>)
        requires
            old(self).wf(),
        ensures
            final(self).wf(),
            agrees(
                r,
                final(self).pending(),
                spec_expression_opp(lhs@, min_precedence as int, old(self).pending()),
            ),
            r is Ok ==> final(self).pending().len() <= old(self).pending().len(),
        decreases old(self).pending().len(), 1int,
    {
        let ghost first = lhs@;
        let mut left = lhs;
        let ghost goal = spec_expression_opp(first, min_precedence as int, self.pending());
        let ghost start = self.pending().len();
        loop
            invariant
                self.wf(),
                goal == spec_expression_opp(first, min_precedence as int, old(self).pending()),
                first == lhs@,
                spec_expression_opp(left@, min_precedence as int, self.pending()) == goal,
                self.pending().len() <= start,
                start == old(self).pending().len(),
            decreases self.pending().len(),
        {
            let ghost ts = self.pending();
            proof {
                self.lexer.lemma_pending_is_stream();
                lemma_advance_stream(ts);
            }
            let (_, token) = match self.lexer.peek_pos() {
                Ok(token) => *token,
                Err(e) => {
                    return Err(ParseErrorCtx::from(e));
                },
            };
            let op = match as_op(token) {
                Some(Operator::Binary(op)) => op,
                _ => {
                    return Ok(left);
                },
            };
            let precedence = op.get_precedence();
            if precedence < min_precedence {
                return Ok(left);
            }
            match self.lexer.take() {
                Ok(_) => {},
                Err(e) => {
                    return Err(ParseErrorCtx::from(e));
                },
            }
            proof {
                lemma_expression_token_consumes(ts.drop_first());
                lemma_product_consumes(ts.drop_first());
            }
            let operand = match self.parse_expression_token() {
                Ok(operand) => operand,
                Err(e) => {
                    return Err(e);
                },
            };
            let ghost after_operand = self.pending();
            proof {
                lemma_product_tail_consumes(operand@, after_operand);
            }
            let rhs = match self.parse_expression_opp(operand, precedence + 1) {
                Ok(rhs) => rhs,
                Err(e) => {
                    proof {
                        if precedence == 2 {
                            assert(operator_at(ts, 3) is None);
                            assert(spec_product_tail(left@, ts) == Ok::<_, ParseFailure>(
                                (left@, ts),
                            ));
                            assert(spec_product(ts.drop_first()) == Err::<
                                (ExprModel, Seq<Lexeme>),
                                _,
                            >(e@));
                        } else {
                            assert(after_operand[0] is Error);
                            assert(operator_at(after_operand, 3) is None);
                            assert(spec_product_tail(join(op, left@, operand@), after_operand)
                                == Err::<(ExprModel, Seq<Lexeme>), _>(e@));
                        }
                    }
                    return Err(e);
                },
            };
            let begin = left.0;
            proof {
                let joined = join(op, left@, rhs@);
                let rest = self.pending();
                assert(spec_expression_opp(joined, min_precedence as int, rest) == goal) by {
                    if precedence == 2 {
                        // `left` is a finished product; the operand and what
                        // bound tighter form the next product of the sum.
                        assert(operator_at(ts, 3) is None);
                        assert(spec_product_tail(left@, ts) == Ok::<_, ParseFailure>((left@, ts)));
                        assert(spec_product(ts.drop_first()) == Ok::<_, ParseFailure>((rhs@, rest)));
                        assert(operator_at(rest, 3) is None);
                        assert(spec_product_tail(joined, rest) == Ok::<_, ParseFailure>(
                            (joined, rest),
                        ));
                    } else {
                        assert(precedence == 3);
                        assert(rhs@ == operand@ && rest == after_operand);
                    }
                }
            }
            left = ExpressionCtx(begin, Expression::BinaryOp(op, Box::new((left, rhs))));
        }
    }

    /// Parses `= EXPR ;`, the end of a declaration and of an assignment.
    fn parse_initializer(&mut self) -> (r: ParseResult<ExpressionCtx>)
        requires
            old(self).wf(),
        ensures
            final(self).wf(),
            agrees(r, final(self).pending(), spec_initializer(old(self).pending())),
    {
        match self.lexer.take_of(TokenKind::Equals) {
            Ok(_) => {},
            Err(e) => {
                return Err(e);
            },
        }
        let value = match self.parse_expression() {
            Ok(value) => value,
            Err(e) => {
                return Err(e);
            },
        };
        match self.lexer.take_of(TokenKind::Semicolon) {
            Ok(_) => Ok(value),
            Err(e) => Err(e),
        }
    }

    /// Parses `NAME = EXPR ;`.
    fn parse_assignment(&mut self) -> (r: ParseResult<StatementCtx>)
        requires
            old(self).wf(),
        ensures
            final(self).wf(),
            agrees(r, final(self).pending(), spec_assignment(old(self).pending())),
    {
        let (pos, local) = match self.lexer.take_identifier() {
            Ok(name) => name,
            Err(e) => {
                return Err(e);
            },
        };
        let value = match self.parse_initializer() {
            Ok(value) => value,
            Err(e) => {
                return Err(e);
            },
        };
        Ok(StatementCtx(pos, Statement::AssignLocal { local, value }))
    }

    /// Parses `let [mut] NAME [: TYPE] = EXPR ;`.
    fn parse_declaration(&mut self) -> (r: ParseResult<StatementCtx>)
        requires
            old(self).wf(),
        ensures
            final(self).wf(),
            agrees(r, final(self).pending(), spec_declaration(old(self).pending())),
    {
        let (pos, _) = match self.lexer.take_of(TokenKind::Let) {
            Ok(token) => token,
            Err(e) => {
                return Err(e);
            },
        };

        let is_mutable = match self.lexer.peek() {
            Ok(Token::Mut) => {
                match self.lexer.take() {
                    Ok(_) => {},
                    Err(e) => {
                        return Err(ParseErrorCtx::from(e));
                    },
                }
                true
            },
            Ok(_) => false,
            Err(e) => {
                return Err(ParseErrorCtx::from(e));
            },
        };

        let name = match self.lexer.take_identifier() {
            Ok(name) => name.1,
            Err(e) => {
                return Err(e);
            },
        };

        let initial_type = match self.lexer.peek() {
            Ok(Token::Colon) => {
                match self.lexer.take() {
                    Ok(_) => {},
                    Err(e) => {
                        return Err(ParseErrorCtx::from(e));
                    },
                }
                match self.lexer.take_identifier() {
                    Ok(name) => Some(name.1),
                    Err(e) => {
                        return Err(e);
                    },
                }
            },
            Ok(_) => None,
            Err(e) => {
                return Err(ParseErrorCtx::from(e));
            },
        };

        let initial_value = match self.parse_initializer() {
            Ok(value) => value,
            Err(e) => {
                return Err(e);
            },
        };

        Ok(
            StatementCtx(
                pos,
                Statement::DeclareVariable { name, initial_type, initial_value, is_mutable },
            ),
        )
    }

    /// Parses the statements of a block after its `{`, and its `}`.
    fn parse_block_items(&mut self) -> (r: ParseResult<Vec<StatementCtx>>)
        requires
            old(self).wf(),
        ensures
            final(self).wf(),
            statements_agree(r, final(self).pending(), spec_block_items(old(self).pending())),
            r is Ok ==> final(self).pending().len() < old(self).pending().len(),
        decreases old(self).pending().len(), 2int,
    {
        let mut inner: Vec<StatementCtx> = Vec::new();
        let ghost goal = spec_block_items(self.pending());
        let ghost start = self.pending().len();
        proof {
            assert(statements_view(inner@) =~= Seq::<StmtModel>::empty());
            assert(prepend(statements_view(inner@), goal) == goal) by {
                if let Ok((statements, rest)) = goal {
                    assert(statements_view(inner@) + statements =~= statements);
                }
            }
        }
        loop
            invariant
                self.wf(),
                goal == spec_block_items(old(self).pending()),
                prepend(statements_view(inner@), spec_block_items(self.pending())) == goal,
                self.pending().len() <= start,
                start == old(self).pending().len(),
            decreases self.pending().len(),
        {
            let ghost ts = self.pending();
            proof {
                self.lexer.lemma_pending_is_stream();
                lemma_advance_stream(ts);
                lemma_statement_consumes(ts);
            }
            let next = match self.lexer.peek() {
                Ok(next) => *next,
                Err(e) => {
                    return Err(ParseErrorCtx::from(e));
                },
            };
            if next.to_kind() == TokenKind::RBrace {
                match self.lexer.take() {
                    Ok(_) => {},
                    Err(e) => {
                        return Err(ParseErrorCtx::from(e));
                    },
                }
                proof {
                    assert(statements_view(inner@) + Seq::<StmtModel>::empty() =~= statements_view(
                        inner@,
                    ));
                }
                return Ok(inner);
            }
            let statement = match self.parse_statement() {
                Ok(statement) => statement,
                Err(e) => {
                    return Err(e);
                },
            };
            proof {
                let before = statements_view(inner@);
                let one = seq![statement@];
                let after = statements_view(inner@.push(statement));
                assert(after =~= before + one);
                let rest = spec_block_items(self.pending());
                assert(spec_block_items(ts) == prepend(one, rest));
                if let Ok((more, left)) = rest {
                    assert(before + (one + more) =~= after + more);
                }
            }
            inner.push(statement);
        }
    }

    /// Parses `{ STATEMENT* }`.
    pub fn parse_block(&mut self) -> (r: ParseResult<StatementCtx>)
        requires
            old(self).wf(),
        ensures
            final(self).wf(),
            agrees(r, final(self).pending(), spec_block(old(self).pending())),
            r is Ok ==> final(self).pending().len() < old(self).pending().len(),
        decreases old(self).pending().len(), 0int,
    {
        proof {
            self.lexer.lemma_pending_is_stream();
            lemma_advance_stream(self.pending());
        }
        let (pos, _) = match self.lexer.take_of(TokenKind::LBrace) {
            Ok(token) => token,
            Err(e) => {
                return Err(e);
            },
        };
        let inner = match self.parse_block_items() {
            Ok(inner) => inner,
            Err(e) => {
                return Err(e);
            },
        };
        proof {
            lemma_block_view(StatementCtx(pos, Statement::Block { inner }));
        }
        Ok(StatementCtx(pos, Statement::Block { inner }))
    }

    /// Parses one statement: a declaration, a block or an assignment, told
    /// apart by the first token.
    pub fn parse_statement(&mut self) -> (r: ParseResult<StatementCtx>)
        requires
            old(self).wf(),
        ensures
            final(self).wf(),
            agrees(r, final(self).pending(), spec_statement(old(self).pending())),
            r is Ok ==> final(self).pending().len() < old(self).pending().len(),
        decreases old(self).pending().len(), 1int,
    {
        proof {
            self.lexer.lemma_pending_is_stream();
            lemma_advance_stream(self.pending());
            lemma_statement_consumes(self.pending());
        }
        let (pos, first) = match self.lexer.peek_pos() {
            Ok(token) => *token,
            Err(e) => {
                return Err(ParseErrorCtx::from(e));
            },
        };

        match first {
            Token::Let => self.parse_declaration(),
            Token::LBrace => {
                proof {
                    lemma_block_is_statement(self.pending());
                }
                self.parse_block()
            },
            Token::Identifier(_) => self.parse_assignment(),
            _ => {
                let expected = vec![TokenKind::Let, TokenKind::LBrace, TokenKind::Identifier];
                assert(expected@ =~= statement_starts());
                Err(unexpected(pos, expected, first))
            },
        }
    }

    /// Parses a program: statements up to the end of input.
    pub fn parse_program(&mut self) -> (r: ParseResult<Program>)
        requires
            old(self).wf(),
        ensures
            final(self).wf(),
            agrees(r, final(self).pending(), spec_program(old(self).pending())),
    {
        let mut statements: Vec<StatementCtx> = Vec::new();
        let ghost goal = spec_program(self.pending());
        proof {
            assert(statements_view(statements@) =~= Seq::<StmtModel>::empty());
            assert(prepend(statements_view(statements@), goal) == goal) by {
                if let Ok((models, rest)) = goal {
                    assert(statements_view(statements@) + models =~= models);
                }
            }
        }
        loop
            invariant
                self.wf(),
                goal == spec_program(old(self).pending()),
                prepend(statements_view(statements@), spec_program(self.pending())) == goal,
            decreases self.pending().len(),
        {
            let ghost ts = self.pending();
            proof {
                self.lexer.lemma_pending_is_stream();
                lemma_advance_stream(ts);
                lemma_statement_consumes(ts);
            }
            let next = match self.lexer.peek() {
                Ok(next) => *next,
                Err(e) => {
                    return Err(ParseErrorCtx::from(e));
                },
            };
            if next.to_kind() == TokenKind::EOF {
                proof {
                    assert(statements_view(statements@) + Seq::<StmtModel>::empty()
                        =~= statements_view(statements@));
                }
                return Ok(Program(statements));
            }
            let statement = match self.parse_statement() {
                Ok(statement) => statement,
                Err(e) => {
                    return Err(e);
                },
            };
            proof {
                let before = statements_view(statements@);
                let one = seq![statement@];
                let after = statements_view(statements@.push(statement));
                assert(after =~= before + one);
                let rest = spec_program(self.pending());
                assert(spec_program(ts) == prepend(one, rest));
                if let Ok((more, left)) = rest {
                    assert(before + (one + more) =~= after + more);
                }
            }
            statements.push(statement);
        }
    }
}

} // verus!
