//! The grammar of the language, as functions from the lexemes still to come to
//! the tree they form and the lexemes left over.
//!
//! Binary operators are laid out in two layers: a sum is a sequence of products
//! joined by `+` and `-`, a product is a sequence of primaries joined by `*`.
//! Both associate to the left. The parser is proved against these functions.

use vstd::prelude::*;

use crate::ast::{ExprModel, IdentModel, StmtModel};
use crate::ast_common::{BinaryOperator, UnaryOperator};
use crate::token_stream::{advance, is_stream, lex_all, Lexeme, LexerErrorModel};
use crate::tokens::{TokenKind, TokenModel};

verus! {

/// The mathematical value of a `ParseError`.
pub enum ParseErrorModel {
    LexerError(LexerErrorModel),
    UnexpectedToken { expected: Seq<TokenKind>, was: TokenKind },
}

/// A parse error with the byte offset at which it was found.
pub struct ParseFailure {
    pub offset: usize,
    pub error: ParseErrorModel,
}

/// What parsing gives: a value and the lexemes not consumed, or a failure.
pub type Parsed<T> = Result<(T, Seq<Lexeme>), ParseFailure>;

/// The failure that a lexeme causes where a token of one of the kinds
/// `expected` has to stand: a lexer error is passed on, a token is unexpected.
pub open spec fn failure_at(lexeme: Lexeme, expected: Seq<TokenKind>) -> ParseFailure {
    match lexeme {
        Lexeme::Error(offset, error) => ParseFailure {
            offset,
            error: ParseErrorModel::LexerError(error),
        },
        Lexeme::Token(offset, token) => ParseFailure {
            offset,
            error: ParseErrorModel::UnexpectedToken { expected, was: token.kind() },
        },
    }
}

/// Takes one token, which has to be of the given kind.
pub open spec fn spec_take_of(ts: Seq<Lexeme>, kind: TokenKind) -> Parsed<(usize, TokenModel)> {
    match ts[0] {
        Lexeme::Token(offset, token) if token.kind() == kind => Ok(((offset, token), advance(ts))),
        other => Err(failure_at(other, seq![kind])),
    }
}

/// Takes one identifier.
pub open spec fn spec_take_identifier(ts: Seq<Lexeme>) -> Parsed<(usize, IdentModel)> {
    match ts[0] {
        Lexeme::Token(offset, TokenModel::Identifier(name)) => Ok(
            ((offset, IdentModel { offset, name }), advance(ts)),
        ),
        other => Err(failure_at(other, seq![TokenKind::Identifier])),
    }
}

/// Takes one integer literal.
pub open spec fn spec_take_integer(ts: Seq<Lexeme>) -> Parsed<(usize, i128)> {
    match ts[0] {
        Lexeme::Token(offset, TokenModel::Integer(value)) => Ok(((offset, value), advance(ts))),
        other => Err(failure_at(other, seq![TokenKind::Integer])),
    }
}

/// The kinds of token with which a primary expression can start.
pub open spec fn primary_starts() -> Seq<TokenKind> {
    seq![TokenKind::Minus, TokenKind::Integer, TokenKind::Identifier, TokenKind::LParen]
}

/// The kinds of token with which a statement can start.
pub open spec fn statement_starts() -> Seq<TokenKind> {
    seq![TokenKind::Let, TokenKind::LBrace, TokenKind::Identifier]
}

/// The binary operator that a token stands for.
pub open spec fn binary_operator(token: TokenModel) -> Option<BinaryOperator> {
    match token {
        TokenModel::Plus => Some(BinaryOperator::Add),
        TokenModel::Minus => Some(BinaryOperator::Sub),
        TokenModel::Asterisk => Some(BinaryOperator::Mul),
        _ => None,
    }
}

/// The binary operator of precedence `level` that stands at the head of the
/// lexemes, if one does.
pub open spec fn operator_at(ts: Seq<Lexeme>, level: int) -> Option<BinaryOperator> {
    match ts[0] {
        Lexeme::Token(_, token) => match binary_operator(token) {
            Some(op) if op.precedence() == level => Some(op),
            _ => None,
        },
        _ => None,
    }
}

/// Where no operator continues an expression, the expression is complete. To
/// find that out the parser looks at the next lexeme, and a lexer error there
/// is a failure.
pub open spec fn spec_operand_end(lhs: ExprModel, ts: Seq<Lexeme>) -> Parsed<ExprModel> {
    match ts[0] {
        Lexeme::Error(_, _) => Err(failure_at(ts[0], seq![])),
        _ => Ok((lhs, ts)),
    }
}

/// The node that joins two operands. It starts where its left operand starts.
pub open spec fn join(op: BinaryOperator, lhs: ExprModel, rhs: ExprModel) -> ExprModel {
    ExprModel::BinaryOp(lhs.offset(), op, Box::new(lhs), Box::new(rhs))
}

/// A primary expression: an integer literal, a name, a negated primary, or an
/// expression in parentheses. The parentheses leave no node of their own.
///
/// In this and the following definitions, a test that compares the lengths of
/// two lexeme sequences guards each recursive step. It is there to show that
/// the definition is well-founded; `lemma_expression_consumes` and
/// `lemma_statement_consumes` show that on a lexeme stream the test never fails.
pub open spec fn spec_expression_token(ts: Seq<Lexeme>) -> Parsed<ExprModel>
    decreases ts.len(), 0int,
{
    match ts[0] {
        Lexeme::Token(offset, TokenModel::Minus) if ts.len() > 1 => {
            match spec_expression_token(ts.drop_first()) {
                Ok((arg, rest)) => Ok(
                    (ExprModel::UnaryOp(offset, UnaryOperator::Negate, Box::new(arg)), rest),
                ),
                Err(failure) => Err(failure),
            }
        },
        Lexeme::Token(offset, TokenModel::Integer(value)) => Ok(
            (ExprModel::IntegerConstant(offset, value), advance(ts)),
        ),
        Lexeme::Token(offset, TokenModel::Identifier(name)) => Ok(
            (ExprModel::Local(offset, name), advance(ts)),
        ),
        Lexeme::Token(_, TokenModel::LParen) if ts.len() > 1 => {
            match spec_expression(ts.drop_first()) {
                Ok((inner, rest)) => match spec_take_of(rest, TokenKind::RParen) {
                    Ok((_, after)) => Ok((inner, after)),
                    Err(failure) => Err(failure),
                },
                Err(failure) => Err(failure),
            }
        },
        other => Err(failure_at(other, primary_starts())),
    }
}

/// Continues a product whose operands so far form `lhs`: as long as a `*`
/// follows, takes it and a primary, and joins them to the left.
pub open spec fn spec_product_tail(lhs: ExprModel, ts: Seq<Lexeme>) -> Parsed<ExprModel>
    decreases ts.len(), 1int,
{
    match operator_at(ts, 3) {
        Some(op) if ts.len() > 1 => match spec_expression_token(ts.drop_first()) {
            Ok((rhs, rest)) if rest.len() < ts.len() => spec_product_tail(join(op, lhs, rhs), rest),
            Ok((rhs, rest)) => Ok((join(op, lhs, rhs), rest)),
            Err(failure) => Err(failure),
        },
        _ => spec_operand_end(lhs, ts),
    }
}

/// A product: primaries joined by `*`.
pub open spec fn spec_product(ts: Seq<Lexeme>) -> Parsed<ExprModel>
    decreases ts.len(), 2int,
{
    match spec_expression_token(ts) {
        Ok((lhs, rest)) if rest.len() <= ts.len() => spec_product_tail(lhs, rest),
        other => other,
    }
}

/// Continues a sum whose operands so far form `lhs`: as long as a `+` or a `-`
/// follows, takes it and a product, and joins them to the left.
pub open spec fn spec_sum_tail(lhs: ExprModel, ts: Seq<Lexeme>) -> Parsed<ExprModel>
    decreases ts.len(), 3int,
{
    match operator_at(ts, 2) {
        Some(op) if ts.len() > 1 => match spec_product(ts.drop_first()) {
            Ok((rhs, rest)) if rest.len() < ts.len() => spec_sum_tail(join(op, lhs, rhs), rest),
            Ok((rhs, rest)) => Ok((join(op, lhs, rhs), rest)),
            Err(failure) => Err(failure),
        },
        _ => spec_operand_end(lhs, ts),
    }
}

/// An expression: products joined by `+` and `-`.
pub open spec fn spec_expression(ts: Seq<Lexeme>) -> Parsed<ExprModel>
    decreases ts.len(), 4int,
{
    match spec_product(ts) {
        Ok((lhs, rest)) if rest.len() <= ts.len() => spec_sum_tail(lhs, rest),
        other => other,
    }
}

/// What is left of an expression after its first operand `lhs`, when only
/// operators of precedence `min_precedence` or more may be taken.
pub open spec fn spec_expression_opp(lhs: ExprModel, min_precedence: int, ts: Seq<Lexeme>) -> Parsed<
    ExprModel,
> {
    if min_precedence <= 2 {
        match spec_product_tail(lhs, ts) {
            Ok((product, rest)) => spec_sum_tail(product, rest),
            Err(failure) => Err(failure),
        }
    } else if min_precedence == 3 {
        spec_product_tail(lhs, ts)
    } else {
        spec_operand_end(lhs, ts)
    }
}

/// `= EXPR ;`, the end of a declaration and of an assignment.
pub open spec fn spec_initializer(ts: Seq<Lexeme>) -> Parsed<ExprModel> {
    match spec_take_of(ts, TokenKind::Equals) {
        Ok((_, after_equals)) => match spec_expression(after_equals) {
            Ok((value, after_value)) => match spec_take_of(after_value, TokenKind::Semicolon) {
                Ok((_, rest)) => Ok((value, rest)),
                Err(failure) => Err(failure),
            },
            Err(failure) => Err(failure),
        },
        Err(failure) => Err(failure),
    }
}

/// `NAME = EXPR ;`
pub open spec fn spec_assignment(ts: Seq<Lexeme>) -> Parsed<StmtModel> {
    match spec_take_identifier(ts) {
        Ok(((offset, local), after_name)) => match spec_initializer(after_name) {
            Ok((value, rest)) => Ok((StmtModel::AssignLocal { offset, local, value }, rest)),
            Err(failure) => Err(failure),
        },
        Err(failure) => Err(failure),
    }
}

/// An optional `mut`.
pub open spec fn spec_mutability(ts: Seq<Lexeme>) -> Parsed<bool> {
    match ts[0] {
        Lexeme::Error(_, _) => Err(failure_at(ts[0], seq![])),
        Lexeme::Token(_, TokenModel::Mut) => Ok((true, advance(ts))),
        _ => Ok((false, ts)),
    }
}

/// An optional `: TYPE`.
pub open spec fn spec_annotation(ts: Seq<Lexeme>) -> Parsed<Option<IdentModel>> {
    match ts[0] {
        Lexeme::Error(_, _) => Err(failure_at(ts[0], seq![])),
        Lexeme::Token(_, TokenModel::Colon) => match spec_take_identifier(advance(ts)) {
            Ok(((_, name), rest)) => Ok((Some(name), rest)),
            Err(failure) => Err(failure),
        },
        _ => Ok((None, ts)),
    }
}

/// `let [mut] NAME [: TYPE] = EXPR ;`
pub open spec fn spec_declaration(ts: Seq<Lexeme>) -> Parsed<StmtModel> {
    match spec_take_of(ts, TokenKind::Let) {
        Ok(((offset, _), after_let)) => match spec_mutability(after_let) {
            Ok((is_mutable, after_mut)) => match spec_take_identifier(after_mut) {
                Ok(((_, name), after_name)) => match spec_annotation(after_name) {
                    Ok((initial_type, after_type)) => match spec_initializer(after_type) {
                        Ok((initial_value, rest)) => Ok(
                            (
                                StmtModel::DeclareVariable {
                                    offset,
                                    name,
                                    is_mutable,
                                    initial_type,
                                    initial_value,
                                },
                                rest,
                            ),
                        ),
                        Err(failure) => Err(failure),
                    },
                    Err(failure) => Err(failure),
                },
                Err(failure) => Err(failure),
            },
            Err(failure) => Err(failure),
        },
        Err(failure) => Err(failure),
    }
}

/// Puts a statement in front of the statements that parsing went on to give.
pub open spec fn prepend(first: Seq<StmtModel>, more: Parsed<Seq<StmtModel>>) -> Parsed<
    Seq<StmtModel>,
> {
    match more {
        Ok((statements, rest)) => Ok((first + statements, rest)),
        Err(failure) => Err(failure),
    }
}

/// One statement: a declaration, a block or an assignment, told apart by the
/// first token.
pub open spec fn spec_statement(ts: Seq<Lexeme>) -> Parsed<StmtModel>
    decreases ts.len(), 1int,
{
    match ts[0] {
        Lexeme::Token(_, TokenModel::Let) => spec_declaration(ts),
        Lexeme::Token(offset, TokenModel::LBrace) if ts.len() > 1 => {
            match spec_block_items(ts.drop_first()) {
                Ok((inner, rest)) => Ok((StmtModel::Block { offset, inner }, rest)),
                Err(failure) => Err(failure),
            }
        },
        Lexeme::Token(_, TokenModel::Identifier(_)) => spec_assignment(ts),
        other => Err(failure_at(other, statement_starts())),
    }
}

/// The statements of a block after its `{`, up to and including its `}`.
pub open spec fn spec_block_items(ts: Seq<Lexeme>) -> Parsed<Seq<StmtModel>>
    decreases ts.len(), 2int,
{
    match ts[0] {
        Lexeme::Error(_, _) => Err(failure_at(ts[0], seq![])),
        Lexeme::Token(_, TokenModel::RBrace) => Ok((seq![], advance(ts))),
        _ => match spec_statement(ts) {
            Ok((statement, rest)) if rest.len() < ts.len() => prepend(
                seq![statement],
                spec_block_items(rest),
            ),
            Ok((statement, rest)) => Ok((seq![statement], rest)),
            Err(failure) => Err(failure),
        },
    }
}

/// `{ STATEMENT* }`
pub open spec fn spec_block(ts: Seq<Lexeme>) -> Parsed<StmtModel> {
    match spec_take_of(ts, TokenKind::LBrace) {
        Ok(((offset, _), after_brace)) => match spec_block_items(after_brace) {
            Ok((inner, rest)) => Ok((StmtModel::Block { offset, inner }, rest)),
            Err(failure) => Err(failure),
        },
        Err(failure) => Err(failure),
    }
}

/// A program: statements up to the end of input.
pub open spec fn spec_program(ts: Seq<Lexeme>) -> Parsed<Seq<StmtModel>>
    decreases ts.len(),
{
    match ts[0] {
        Lexeme::Error(_, _) => Err(failure_at(ts[0], seq![])),
        Lexeme::Token(_, TokenModel::EOF) => Ok((seq![], ts)),
        _ => match spec_statement(ts) {
            Ok((statement, rest)) if rest.len() < ts.len() => prepend(
                seq![statement],
                spec_program(rest),
            ),
            Ok((statement, rest)) => Ok((seq![statement], rest)),
            Err(failure) => Err(failure),
        },
    }
}

/// What is left of a stream after its first lexeme is a stream, and shorter
/// where that lexeme was a token other than `EOF`.
pub proof fn lemma_advance_stream(ts: Seq<Lexeme>)
    requires
        is_stream(ts),
    ensures
        is_stream(advance(ts)),
        ts[0].is_proper_token() ==> ts.len() > 1 && advance(ts) == ts.drop_first(),
        advance(ts).len() <= ts.len(),
{
    if ts.len() > 1 {
        let rest = ts.drop_first();
        assert forall|i: int| 0 <= i < rest.len() - 1 implies (#[trigger] rest[i]).is_proper_token() by {
            assert(rest[i] == ts[i + 1]);
        }
        assert(rest.last() == ts.last());
    }
}

/// A primary expression consumes at least one lexeme of a stream and leaves a
/// stream.
pub proof fn lemma_expression_token_consumes(ts: Seq<Lexeme>)
    requires
        is_stream(ts),
    ensures
        spec_expression_token(ts) matches Ok((_, rest)) ==> is_stream(rest) && rest.len()
            < ts.len(),
    decreases ts.len(), 0int,
{
    lemma_advance_stream(ts);
    match ts[0] {
        Lexeme::Token(_, TokenModel::Minus) => {
            lemma_expression_token_consumes(ts.drop_first());
        },
        Lexeme::Token(_, TokenModel::LParen) => {
            lemma_expression_consumes(ts.drop_first());
            if let Ok((_, rest)) = spec_expression(ts.drop_first()) {
                lemma_advance_stream(rest);
            }
        },
        _ => {},
    }
}

/// The rest of a product leaves a stream that is no longer than the one it
/// started from and that does not go on with a `*`.
pub proof fn lemma_product_tail_consumes(lhs: ExprModel, ts: Seq<Lexeme>)
    requires
        is_stream(ts),
    ensures
        spec_product_tail(lhs, ts) matches Ok((_, rest)) ==> is_stream(rest) && rest.len()
            <= ts.len() && operator_at(rest, 3) is None && !(rest[0] is Error),
    decreases ts.len(), 1int,
{
    lemma_advance_stream(ts);
    if let Some(op) = operator_at(ts, 3) {
        lemma_expression_token_consumes(ts.drop_first());
        if let Ok((rhs, rest)) = spec_expression_token(ts.drop_first()) {
            lemma_product_tail_consumes(join(op, lhs, rhs), rest);
        }
    }
}

/// A product consumes at least one lexeme of a stream and leaves a stream
/// that does not go on with a `*`.
pub proof fn lemma_product_consumes(ts: Seq<Lexeme>)
    requires
        is_stream(ts),
    ensures
        spec_product(ts) matches Ok((_, rest)) ==> is_stream(rest) && rest.len() < ts.len()
            && operator_at(rest, 3) is None && !(rest[0] is Error),
    decreases ts.len(), 2int,
{
    lemma_expression_token_consumes(ts);
    if let Ok((lhs, rest)) = spec_expression_token(ts) {
        lemma_product_tail_consumes(lhs, rest);
    }
}

/// The rest of a sum leaves a stream that is no longer than the one it started
/// from and that does not go on with a `+` or a `-`.
pub proof fn lemma_sum_tail_consumes(lhs: ExprModel, ts: Seq<Lexeme>)
    requires
        is_stream(ts),
    ensures
        spec_sum_tail(lhs, ts) matches Ok((_, rest)) ==> is_stream(rest) && rest.len() <= ts.len()
            && operator_at(rest, 2) is None && !(rest[0] is Error),
    decreases ts.len(), 3int,
{
    lemma_advance_stream(ts);
    if let Some(op) = operator_at(ts, 2) {
        lemma_product_consumes(ts.drop_first());
        if let Ok((rhs, rest)) = spec_product(ts.drop_first()) {
            lemma_sum_tail_consumes(join(op, lhs, rhs), rest);
        }
    }
}

/// An expression consumes at least one lexeme of a stream and leaves a stream.
pub proof fn lemma_expression_consumes(ts: Seq<Lexeme>)
    requires
        is_stream(ts),
    ensures
        spec_expression(ts) matches Ok((_, rest)) ==> is_stream(rest) && rest.len() < ts.len(),
    decreases ts.len(), 4int,
{
    lemma_product_consumes(ts);
    if let Ok((lhs, rest)) = spec_product(ts) {
        lemma_sum_tail_consumes(lhs, rest);
    }
}

/// `= EXPR ;` consumes at least one lexeme of a stream and leaves a stream.
pub proof fn lemma_initializer_consumes(ts: Seq<Lexeme>)
    requires
        is_stream(ts),
    ensures
        spec_initializer(ts) matches Ok((_, rest)) ==> is_stream(rest) && rest.len() < ts.len(),
{
    lemma_advance_stream(ts);
    if let Ok((_, after_equals)) = spec_take_of(ts, TokenKind::Equals) {
        lemma_expression_consumes(after_equals);
        if let Ok((_, after_value)) = spec_expression(after_equals) {
            lemma_advance_stream(after_value);
        }
    }
}

/// A statement consumes at least one lexeme of a stream and leaves a stream.
pub proof fn lemma_statement_consumes(ts: Seq<Lexeme>)
    requires
        is_stream(ts),
    ensures
        spec_statement(ts) matches Ok((_, rest)) ==> is_stream(rest) && rest.len() < ts.len(),
    decreases ts.len(), 1int,
{
    lemma_advance_stream(ts);
    match ts[0] {
        Lexeme::Token(_, TokenModel::Let) => {
            let after_let = advance(ts);
            lemma_advance_stream(after_let);
            if let Ok((_, after_mut)) = spec_mutability(after_let) {
                lemma_advance_stream(after_mut);
                if let Ok((_, after_name)) = spec_take_identifier(after_mut) {
                    lemma_advance_stream(after_name);
                    lemma_advance_stream(advance(after_name));
                    if let Ok((_, after_type)) = spec_annotation(after_name) {
                        lemma_initializer_consumes(after_type);
                    }
                }
            }
        },
        Lexeme::Token(_, TokenModel::LBrace) => {
            lemma_block_items_consume(ts.drop_first());
        },
        Lexeme::Token(_, TokenModel::Identifier(_)) => {
            lemma_initializer_consumes(advance(ts));
        },
        _ => {},
    }
}

/// The statements of a block and its `}` consume at least one lexeme of a
/// stream and leave a stream.
pub proof fn lemma_block_items_consume(ts: Seq<Lexeme>)
    requires
        is_stream(ts),
    ensures
        spec_block_items(ts) matches Ok((_, rest)) ==> is_stream(rest) && rest.len() < ts.len(),
    decreases ts.len(), 2int,
{
    lemma_advance_stream(ts);
    match ts[0] {
        Lexeme::Error(_, _) => {},
        Lexeme::Token(_, TokenModel::RBrace) => {},
        _ => {
            lemma_statement_consumes(ts);
            if let Ok((_, rest)) = spec_statement(ts) {
                lemma_block_items_consume(rest);
            }
        },
    }
}

/// A block statement is a `{` followed by the statements of the block.
pub proof fn lemma_block_is_statement(ts: Seq<Lexeme>)
    requires
        is_stream(ts),
        ts[0] matches Lexeme::Token(_, TokenModel::LBrace),
    ensures
        spec_statement(ts) == spec_block(ts),
{
    lemma_advance_stream(ts);
}

/// The byte offset that a lexeme stands at.
pub open spec fn offset_of(lexeme: Lexeme) -> usize {
    match lexeme {
        Lexeme::Token(offset, _) => offset,
        Lexeme::Error(offset, _) => offset,
    }
}

/// The offset of the first lexeme that is no opening parenthesis.
/// Parentheses group and belong to no node, so this is where the first token
/// of the expression that the lexemes start with stands.
pub open spec fn first_operand_offset(ts: Seq<Lexeme>) -> usize
    decreases ts.len(),
{
    match ts[0] {
        Lexeme::Token(_, TokenModel::LParen) if ts.len() > 1 => first_operand_offset(
            ts.drop_first(),
        ),
        other => offset_of(other),
    }
}

/// A primary expression is tagged with the offset of its first token.
pub proof fn lemma_expression_token_offset(ts: Seq<Lexeme>)
    requires
        is_stream(ts),
    ensures
        spec_expression_token(ts) matches Ok((expression, _)) ==> expression.offset()
            == first_operand_offset(ts),
    decreases ts.len(), 0int,
{
    lemma_advance_stream(ts);
    match ts[0] {
        Lexeme::Token(_, TokenModel::LParen) => {
            lemma_expression_offset(ts.drop_first());
        },
        _ => {},
    }
}

/// Joining operands to the left keeps the offset of the first operand.
pub proof fn lemma_product_tail_offset(lhs: ExprModel, ts: Seq<Lexeme>)
    requires
        is_stream(ts),
    ensures
        spec_product_tail(lhs, ts) matches Ok((expression, _)) ==> expression.offset()
            == lhs.offset(),
    decreases ts.len(),
{
    lemma_advance_stream(ts);
    if let Some(op) = operator_at(ts, 3) {
        lemma_expression_token_consumes(ts.drop_first());
        if let Ok((rhs, rest)) = spec_expression_token(ts.drop_first()) {
            lemma_product_tail_offset(join(op, lhs, rhs), rest);
        }
    }
}

/// A product is tagged with the offset of its first token.
pub proof fn lemma_product_offset(ts: Seq<Lexeme>)
    requires
        is_stream(ts),
    ensures
        spec_product(ts) matches Ok((expression, _)) ==> expression.offset()
            == first_operand_offset(ts),
    decreases ts.len(), 2int,
{
    lemma_expression_token_offset(ts);
    lemma_expression_token_consumes(ts);
    if let Ok((lhs, rest)) = spec_expression_token(ts) {
        lemma_product_tail_offset(lhs, rest);
    }
}

/// Joining products to the left keeps the offset of the first product.
pub proof fn lemma_sum_tail_offset(lhs: ExprModel, ts: Seq<Lexeme>)
    requires
        is_stream(ts),
    ensures
        spec_sum_tail(lhs, ts) matches Ok((expression, _)) ==> expression.offset() == lhs.offset(),
    decreases ts.len(),
{
    lemma_advance_stream(ts);
    if let Some(op) = operator_at(ts, 2) {
        lemma_product_consumes(ts.drop_first());
        if let Ok((rhs, rest)) = spec_product(ts.drop_first()) {
            lemma_sum_tail_offset(join(op, lhs, rhs), rest);
        }
    }
}

/// An expression is tagged with the offset of its first token.
pub proof fn lemma_expression_offset(ts: Seq<Lexeme>)
    requires
        is_stream(ts),
    ensures
        spec_expression(ts) matches Ok((expression, _)) ==> expression.offset()
            == first_operand_offset(ts),
    decreases ts.len(), 4int,
{
    lemma_product_offset(ts);
    lemma_product_consumes(ts);
    if let Ok((lhs, rest)) = spec_product(ts) {
        lemma_sum_tail_offset(lhs, rest);
    }
}

/// A statement is tagged with the offset of its first token.
pub proof fn lemma_statement_offset(ts: Seq<Lexeme>)
    requires
        is_stream(ts),
    ensures
        spec_statement(ts) matches Ok((statement, _)) ==> statement.offset() == offset_of(ts[0]),
{
    lemma_advance_stream(ts);
}

/// The program that a text denotes, or the first error that stands in the way.
pub open spec fn parse_text(source: Seq<char>) -> Result<Seq<StmtModel>, ParseFailure> {
    match spec_program(lex_all(source, 0)) {
        Ok((statements, _)) => Ok(statements),
        Err(failure) => Err(failure),
    }
}

} // verus!
