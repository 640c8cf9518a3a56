use toylang::ast::{
    Block, Expression, ExpressionCtx, IdentifierCtx, Program, Statement, StatementCtx,
};
use toylang::ast_common::{BinaryOperator, UnaryOperator};
use toylang::mir::{MirExpression, MirExpressionCtx, MirProgram, MirStatement, MirStatementCtx};
use toylang::parser::Parser;
use toylang::rast::{LocalId, RastExpression, RastExpressionCtx, RastStatement};
use toylang::token_stream::TokenStream;

fn sample() -> Program {
    let mut lexer = TokenStream::new(
        "let mut a : i32 = -(1 + 2) * b; { a = a - 1; { } let c = a; } a = 3;",
    );
    let mut parser = Parser::new(&mut lexer);
    parser.parse_program().unwrap()
}

#[test]
fn a_copy_of_a_program_equals_the_program() {
    let program = sample();
    let copy = program.clone();
    assert_eq!(program, copy);
    assert_eq!(3, copy.0.len());
}

#[test]
fn a_copy_of_a_statement_equals_the_statement() {
    let program = sample();
    for statement in &program.0 {
        assert_eq!(*statement, statement.clone());
        assert_eq!(statement.1, statement.1.clone());
    }
    let block = Block(program.0);
    assert_eq!(block, block.clone());
}

#[test]
fn a_copy_of_an_expression_equals_the_expression() {
    let expression = ExpressionCtx(
        3,
        Expression::BinaryOp(
            BinaryOperator::Sub,
            Box::new((
                ExpressionCtx(
                    3,
                    Expression::UnaryOp(
                        UnaryOperator::Negate,
                        Box::new(ExpressionCtx(4, Expression::Local("名前".to_string()))),
                    ),
                ),
                ExpressionCtx(9, Expression::IntegerConstant(i128::MAX)),
            )),
        ),
    );
    assert_eq!(expression, expression.clone());
    assert_eq!(expression.1, expression.1.clone());
    let name = IdentifierCtx(1, "n".to_string());
    assert_eq!(name, name.clone());
    let declaration = StatementCtx(
        0,
        Statement::DeclareVariable {
            name: name.clone(),
            is_mutable: true,
            initial_type: Some(IdentifierCtx(5, "bool".to_string())),
            initial_value: expression.clone(),
        },
    );
    assert_eq!(declaration, declaration.clone());
}

#[test]
fn the_checked_tree_is_the_resolved_tree() {
    let expression: MirExpressionCtx = RastExpressionCtx(0, RastExpression::Local(LocalId(1)));
    let node: &MirExpression = &expression.1;
    assert_eq!(RastExpression::Local(LocalId(1)), *node);
    let statement: MirStatement = RastStatement::AssignLocal {
        local_id: LocalId(0),
        value: expression,
    };
    let program = MirProgram(vec![MirStatementCtx(0, statement)]);
    assert_eq!(1, program.0.len());
}
