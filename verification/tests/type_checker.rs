use toylang::ast_common::{BinaryOperator, UnaryOperator};
use toylang::parser::Parser;
use toylang::rast::{
    LocalId, PrimitiveType, RastExpression, RastExpressionCtx, RastProgram, RastStatement,
    RastStatementCtx, ScopeId, TypeRef, UserTypeId,
};
use toylang::semantic::{transform_program, SemanticContext};
use toylang::token_stream::TokenStream;
use toylang::type_checker::{
    are_equal, is_assignable, resolve_expression, visit_program, visit_statement, TypeError,
    TypeErrorCtx,
};

#[test]
fn primitive_resolved() {
    let mut ctx = SemanticContext::new();
    assert!(is_assignable(
        &mut ctx,
        TypeRef::Primitive(PrimitiveType::I32),
        TypeRef::Primitive(PrimitiveType::I32)
    ));
}

const I32: TypeRef = TypeRef::Primitive(PrimitiveType::I32);
const BOOL: TypeRef = TypeRef::Primitive(PrimitiveType::Bool);

fn check(text: &str) -> (SemanticContext, RastProgram, Result<(), TypeErrorCtx>) {
    let mut lexer = TokenStream::new(text);
    let mut parser = Parser::new(&mut lexer);
    let program = parser.parse_program().unwrap();
    let (mut ctx, mut program) = transform_program(program).unwrap();
    let result = visit_program(&mut ctx, &mut program);
    (ctx, program, result)
}

fn type_of(ctx: &SemanticContext, local: usize) -> Option<TypeRef> {
    ctx.resolve_local(ScopeId(0), LocalId(local)).unwrap().initial_type
}

fn num(value: i128) -> RastExpressionCtx {
    RastExpressionCtx(1, RastExpression::IntegerConstant(value))
}

fn local(id: LocalId) -> RastExpressionCtx {
    RastExpressionCtx(2, RastExpression::Local(id))
}

fn negate(offset: usize, arg: RastExpressionCtx) -> RastExpressionCtx {
    RastExpressionCtx(
        offset,
        RastExpression::UnaryOp(UnaryOperator::Negate, Box::new(arg)),
    )
}

fn binop(offset: usize, op: BinaryOperator, lhs: RastExpressionCtx, rhs: RastExpressionCtx) -> RastExpressionCtx {
    RastExpressionCtx(offset, RastExpression::BinaryOp(op, Box::new((lhs, rhs))))
}

#[test]
fn types_are_equal_only_if_the_same_primitive() {
    let mut ctx = SemanticContext::new();
    assert!(are_equal(&mut ctx, I32, I32));
    assert!(are_equal(&mut ctx, BOOL, BOOL));
    assert!(!are_equal(&mut ctx, I32, BOOL));
    assert!(!are_equal(&mut ctx, BOOL, I32));
    let user = TypeRef::UserType(UserTypeId(0));
    assert!(!are_equal(&mut ctx, user, user));
    assert!(!are_equal(&mut ctx, user, I32));
    assert!(!is_assignable(&mut ctx, I32, BOOL));
    assert!(is_assignable(&mut ctx, BOOL, BOOL));
    assert!(!is_assignable(&mut ctx, user, user));
    assert!(!is_assignable(&mut ctx, I32, user));
}

#[test]
fn the_first_assignment_fixes_the_type() {
    let (ctx, _, result) = check("let a = 1; let b = a + 2; { let c = -b; a = c * b; }");
    assert_eq!(Ok(()), result);
    assert_eq!(Some(I32), type_of(&ctx, 0));
    assert_eq!(Some(I32), type_of(&ctx, 1));
    assert_eq!(
        Some(I32),
        ctx.resolve_local(ScopeId(1), LocalId(2)).unwrap().initial_type
    );
}

#[test]
fn an_annotation_is_kept_and_checked() {
    let (ctx, _, result) = check("let a : i32 = 1; a = 2;");
    assert_eq!(Ok(()), result);
    assert_eq!(Some(I32), type_of(&ctx, 0));

    let (ctx, _, result) = check("let b : bool = 1;");
    assert_eq!(
        Err(TypeErrorCtx(
            0,
            TypeError::NotAssignable {
                target: BOOL,
                x: I32
            }
        )),
        result
    );
    assert_eq!(Some(BOOL), type_of(&ctx, 0));
}

#[test]
fn a_number_cannot_be_assigned_to_a_bool() {
    let (_, _, result) = check("let x = 1; let y : bool = x;");
    assert_eq!(
        Err(TypeErrorCtx(
            11,
            TypeError::NotAssignable {
                target: BOOL,
                x: I32
            }
        )),
        result
    );
}

#[test]
fn checking_stops_at_the_first_error() {
    let (ctx, _, result) = check("let a = 1; let b : bool = 2; let c = 3;");
    assert_eq!(
        Err(TypeErrorCtx(
            11,
            TypeError::NotAssignable {
                target: BOOL,
                x: I32
            }
        )),
        result
    );
    assert_eq!(Some(I32), type_of(&ctx, 0));
    // the statement after the error was not checked
    assert_eq!(None, type_of(&ctx, 2));
}

#[test]
fn a_bool_is_no_operand() {
    let mut ctx = SemanticContext::new();
    let root = ctx.declare_scope(None);
    let flag = ctx.declare_local(root, "flag".to_string(), Some(BOOL));
    let count = ctx.declare_local(root, "count".to_string(), Some(I32));

    assert_eq!(Ok(BOOL), resolve_expression(&mut ctx, root, &local(flag)));
    assert_eq!(Ok(I32), resolve_expression(&mut ctx, root, &local(count)));
    assert_eq!(Ok(I32), resolve_expression(&mut ctx, root, &num(5)));
    assert_eq!(
        Ok(I32),
        resolve_expression(&mut ctx, root, &negate(0, local(count)))
    );
    assert_eq!(
        Err(TypeErrorCtx(
            7,
            TypeError::InvalidUnaryOpArg {
                op: UnaryOperator::Negate,
                x: BOOL
            }
        )),
        resolve_expression(&mut ctx, root, &negate(7, local(flag)))
    );
    for op in [BinaryOperator::Add, BinaryOperator::Sub, BinaryOperator::Mul] {
        assert_eq!(
            Ok(I32),
            resolve_expression(&mut ctx, root, &binop(9, op, local(count), num(1)))
        );
        assert_eq!(
            Err(TypeErrorCtx(
                9,
                TypeError::InvalidBinaryOpArgs {
                    op,
                    lhs: BOOL,
                    rhs: I32
                }
            )),
            resolve_expression(&mut ctx, root, &binop(9, op, local(flag), num(1)))
        );
        assert_eq!(
            Err(TypeErrorCtx(
                9,
                TypeError::InvalidBinaryOpArgs {
                    op,
                    lhs: I32,
                    rhs: BOOL
                }
            )),
            resolve_expression(&mut ctx, root, &binop(9, op, num(1), local(flag)))
        );
    }
    // the innermost error on the left comes first
    assert_eq!(
        Err(TypeErrorCtx(
            3,
            TypeError::InvalidUnaryOpArg {
                op: UnaryOperator::Negate,
                x: BOOL
            }
        )),
        resolve_expression(
            &mut ctx,
            root,
            &binop(
                9,
                BinaryOperator::Add,
                negate(3, local(flag)),
                binop(4, BinaryOperator::Mul, local(flag), num(1))
            )
        )
    );
}

#[test]
fn the_equality_operator_has_no_typing_rule() {
    let mut ctx = SemanticContext::new();
    let root = ctx.declare_scope(None);
    assert_eq!(
        Err(TypeErrorCtx(
            6,
            TypeError::InvalidBinaryOpArgs {
                op: BinaryOperator::Equals,
                lhs: I32,
                rhs: I32
            }
        )),
        resolve_expression(
            &mut ctx,
            root,
            &binop(6, BinaryOperator::Equals, num(1), num(1))
        )
    );
}

#[test]
fn a_local_without_a_type_or_out_of_sight_is_untyped() {
    let mut ctx = SemanticContext::new();
    let root = ctx.declare_scope(None);
    let block = ctx.declare_scope(Some(root));
    let untyped = ctx.declare_local(root, "u".to_string(), None);
    let hidden = ctx.declare_local(block, "h".to_string(), Some(I32));

    assert_eq!(
        Err(TypeErrorCtx(
            2,
            TypeError::UntypedLocal { local_id: untyped }
        )),
        resolve_expression(&mut ctx, root, &local(untyped))
    );
    assert_eq!(Ok(I32), resolve_expression(&mut ctx, block, &local(hidden)));
    assert_eq!(
        Err(TypeErrorCtx(2, TypeError::UntypedLocal { local_id: hidden })),
        resolve_expression(&mut ctx, root, &local(hidden))
    );
    assert_eq!(
        Err(TypeErrorCtx(
            2,
            TypeError::UntypedLocal {
                local_id: LocalId(99)
            }
        )),
        resolve_expression(&mut ctx, root, &local(LocalId(99)))
    );

    let mut to_hidden = RastStatementCtx(
        40,
        RastStatement::AssignLocal {
            local_id: hidden,
            value: num(1),
        },
    );
    assert_eq!(
        Err(TypeErrorCtx(40, TypeError::UntypedLocal { local_id: hidden })),
        visit_statement(&mut ctx, root, &mut to_hidden)
    );
    assert_eq!(Ok(()), visit_statement(&mut ctx, block, &mut to_hidden));

    let mut first_write = RastStatementCtx(
        50,
        RastStatement::AssignLocal {
            local_id: untyped,
            value: num(1),
        },
    );
    assert_eq!(Ok(()), visit_statement(&mut ctx, block, &mut first_write));
    assert_eq!(Ok(I32), resolve_expression(&mut ctx, root, &local(untyped)));
}

#[test]
fn a_block_is_checked_in_its_own_scope() {
    let mut ctx = SemanticContext::new();
    let root = ctx.declare_scope(None);
    let block = ctx.declare_scope(Some(root));
    let inside = ctx.declare_local(block, "i".to_string(), None);
    let mut statement = RastStatementCtx(
        0,
        RastStatement::Block {
            scope_id: block,
            inner: vec![
                RastStatementCtx(
                    2,
                    RastStatement::AssignLocal {
                        local_id: inside,
                        value: num(1),
                    },
                ),
                RastStatementCtx(
                    9,
                    RastStatement::AssignLocal {
                        local_id: inside,
                        value: local(inside),
                    },
                ),
            ],
        },
    );
    assert_eq!(Ok(()), visit_statement(&mut ctx, root, &mut statement));
    assert_eq!(
        Some(I32),
        ctx.resolve_local(block, inside).unwrap().initial_type
    );
}
