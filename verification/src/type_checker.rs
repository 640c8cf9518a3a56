//! The type checker: gives every expression a type, fixes the type of each
//! local at its first assignment and holds every later assignment to it.

use vstd::prelude::*;

use crate::ast_common::{BinaryOperator, UnaryOperator};
use crate::rast::{
    lemma_rast_block_view, rast_statements_view, LocalId, PrimitiveType, RastExpression,
    RastExpressionCtx, RastProgram, RastStatement, RastStatementCtx, RastStmtModel, ScopeId,
    TypeRef,
};
use crate::semantic::{ContextModel, SemanticContext};

verus! {

#[derive(Debug, PartialEq, Eq)]
pub enum TypeError {
    NotAssignable { target: TypeRef, x: TypeRef },
    InvalidUnaryOpArg { op: UnaryOperator, x: TypeRef },
    InvalidBinaryOpArgs { op: BinaryOperator, lhs: TypeRef, rhs: TypeRef },
    UntypedLocal { local_id: LocalId },
}

/// A type error with the byte offset of the node that it was found at.
#[derive(Debug, PartialEq, Eq)]
pub struct TypeErrorCtx(pub usize, pub TypeError);

pub type TypeResult<T> = Result<T, TypeErrorCtx>;

/// The 32-bit integer type, the type of every number.
pub open spec fn int_type() -> TypeRef {
    TypeRef::Primitive(PrimitiveType::I32)
}

/// Two types are equal if they are the same primitive type.
pub open spec fn types_equal(a: TypeRef, b: TypeRef) -> bool {
    match (a, b) {
        (TypeRef::Primitive(a), TypeRef::Primitive(b)) => a == b,
        _ => false,
    }
}

/// The type that a local is known to have, seen from a scope. A local that
/// cannot be seen from the scope has none.
pub open spec fn known_type(ctx: ContextModel, scope: ScopeId, local: LocalId) -> Option<TypeRef> {
    if ctx.visible(scope, local) {
        ctx.locals[local.0 as int].initial_type
    } else {
        None
    }
}

/// Whether a binary operator takes numbers and gives a number.
pub open spec fn is_arithmetic(op: BinaryOperator) -> bool {
    op == BinaryOperator::Add || op == BinaryOperator::Sub || op == BinaryOperator::Mul
}

/// The type of an expression in a scope, or the first type error in it, from
/// left to right and from the inside out.
///
/// A number is an `I32`. A local has the type it is known to have. Negation
/// takes an `I32` and gives one. Addition, subtraction and multiplication take
/// two `I32` and give one; the equality operator has no typing rule and is an
/// error whatever its operands.
pub open spec fn spec_resolve_expression(
    ctx: ContextModel,
    scope: ScopeId,
    expression: RastExpressionCtx,
) -> Result<TypeRef, TypeErrorCtx>
    decreases expression,
{
    let pos = expression.0;
    match expression.1 {
        RastExpression::IntegerConstant(_) => Ok(int_type()),
        RastExpression::Local(local_id) => match known_type(ctx, scope, local_id) {
            Some(known) => Ok(known),
            None => Err(TypeErrorCtx(pos, TypeError::UntypedLocal { local_id })),
        },
        RastExpression::UnaryOp(op, x) => match spec_resolve_expression(ctx, scope, *x) {
            Ok(x_type) => if x_type == int_type() {
                Ok(int_type())
            } else {
                Err(TypeErrorCtx(pos, TypeError::InvalidUnaryOpArg { op, x: x_type }))
            },
            Err(e) => Err(e),
        },
        RastExpression::BinaryOp(op, args) => match spec_resolve_expression(ctx, scope, args.0) {
            Ok(lhs) => match spec_resolve_expression(ctx, scope, args.1) {
                Ok(rhs) => if lhs == int_type() && rhs == int_type() && is_arithmetic(op) {
                    Ok(int_type())
                } else {
                    Err(TypeErrorCtx(pos, TypeError::InvalidBinaryOpArgs { op, lhs, rhs }))
                },
                Err(e) => Err(e),
            },
            Err(e) => Err(e),
        },
    }
}

/// What checking gives: the context with the types fixed so far, and whether
/// a type error was found.
pub struct Checked {
    pub ctx: ContextModel,
    pub result: Result<(), TypeErrorCtx>,
}

/// Checks an assignment of a value of type `value_type` to a local.
///
/// A local without a type takes the type of the value. A local with a type
/// keeps it, and the value has to have that type. A local that cannot be
/// seen from the scope has no type to check against.
pub open spec fn spec_assign(
    ctx: ContextModel,
    scope: ScopeId,
    pos: usize,
    local_id: LocalId,
    value_type: TypeRef,
) -> Checked {
    if !ctx.visible(scope, local_id) {
        Checked { ctx, result: Err(TypeErrorCtx(pos, TypeError::UntypedLocal { local_id })) }
    } else {
        match ctx.locals[local_id.0 as int].initial_type {
            None => Checked { ctx: ctx.set_type(local_id, Some(value_type)), result: Ok(()) },
            Some(annotated) => if types_equal(annotated, value_type) {
                Checked { ctx, result: Ok(()) }
            } else {
                Checked {
                    ctx,
                    result: Err(
                        TypeErrorCtx(
                            pos,
                            TypeError::NotAssignable { target: annotated, x: value_type },
                        ),
                    ),
                }
            },
        }
    }
}

/// Checks one statement in a scope. A block is checked in its own scope.
pub open spec fn spec_visit_statement(
    ctx: ContextModel,
    scope: ScopeId,
    statement: RastStmtModel,
) -> Checked
    decreases statement, 0int,
{
    match statement {
        RastStmtModel::AssignLocal { offset, local_id, value } => match spec_resolve_expression(
            ctx,
            scope,
            value,
        ) {
            Ok(value_type) => spec_assign(ctx, scope, offset, local_id, value_type),
            Err(e) => Checked { ctx, result: Err(e) },
        },
        RastStmtModel::Block { offset, scope_id, inner } => spec_visit_statements(
            ctx,
            scope_id,
            inner,
            0,
        ),
    }
}

/// Checks the statements from index `from` on, one after the other, each with
/// the types that the ones before have fixed, up to the first error.
pub open spec fn spec_visit_statements(
    ctx: ContextModel,
    scope: ScopeId,
    statements: Seq<RastStmtModel>,
    from: int,
) -> Checked
    decreases statements, statements.len() - from,
{
    if 0 <= from < statements.len() {
        let first = spec_visit_statement(ctx, scope, statements[from]);
        match first.result {
            Ok(_) => spec_visit_statements(first.ctx, scope, statements, from + 1),
            Err(_) => first,
        }
    } else {
        Checked { ctx, result: Ok(()) }
    }
}

/// Checks a program: its statements, in the root scope.
pub open spec fn spec_visit_program(ctx: ContextModel, program: Seq<RastStmtModel>) -> Checked {
    spec_visit_statements(ctx, ScopeId(0), program, 0)
}

/// Whether two types are equal.
pub fn are_equal(ctx: &mut SemanticContext, a: TypeRef, b: TypeRef) -> (equal: bool)
    ensures
        equal == types_equal(a, b),
        *final(ctx) == *old(ctx),
{
    match (a, b) {
        (TypeRef::Primitive(a), TypeRef::Primitive(b)) => a == b,
        _ => false,
    }
}

/// Whether a value of type `b` can be assigned to a local of type `a`: only if
/// the types are equal.
pub fn is_assignable(ctx: &mut SemanticContext, a: TypeRef, b: TypeRef) -> (assignable: bool)
    ensures
        assignable == types_equal(a, b),
        *final(ctx) == *old(ctx),
{
    match (a, b) {
        (TypeRef::Primitive(a), TypeRef::Primitive(b)) => a == b,
        _ => false,
    }
}

/// The type of an expression in a scope. The context is only read.
pub fn resolve_expression(
    ctx: &mut SemanticContext,
    scope_id: ScopeId,
    expression: &RastExpressionCtx,
) -> (r: TypeResult<TypeRef>)
    requires
        old(ctx).wf(),
    ensures
        *final(ctx) == *old(ctx),
        r == spec_resolve_expression(old(ctx)@, scope_id, *expression),
    decreases expression,
{
    let pos = expression.0;
    match &expression.1 {
        RastExpression::IntegerConstant(_) => Ok(TypeRef::Primitive(PrimitiveType::I32)),
        RastExpression::Local(local_id) => {
            let known = match ctx.resolve_local(scope_id, *local_id) {
                Some(local) => local.initial_type,
                None => None,
            };
            match known {
                Some(known) => Ok(known),
                None => Err(TypeErrorCtx(pos, TypeError::UntypedLocal { local_id: *local_id })),
            }
        },
        RastExpression::UnaryOp(op, x) => {
            let x_type = match resolve_expression(ctx, scope_id, x) {
                Ok(x_type) => x_type,
                Err(e) => {
                    return Err(e);
                },
            };
            match (*op, x_type) {
                (UnaryOperator::Negate, TypeRef::Primitive(PrimitiveType::I32)) => Ok(
                    TypeRef::Primitive(PrimitiveType::I32),
                ),
                _ => Err(TypeErrorCtx(pos, TypeError::InvalidUnaryOpArg { op: *op, x: x_type })),
            }
        },
        RastExpression::BinaryOp(op, args) => {
            let lhs_type = match resolve_expression(ctx, scope_id, &args.0) {
                Ok(lhs_type) => lhs_type,
                Err(e) => {
                    return Err(e);
                },
            };
            let rhs_type = match resolve_expression(ctx, scope_id, &args.1) {
                Ok(rhs_type) => rhs_type,
                Err(e) => {
                    return Err(e);
                },
            };

            match (lhs_type, *op, rhs_type) {
                (
                    TypeRef::Primitive(PrimitiveType::I32),
                    BinaryOperator::Add,
                    TypeRef::Primitive(PrimitiveType::I32),
                )
                | (
                    TypeRef::Primitive(PrimitiveType::I32),
                    BinaryOperator::Sub,
                    TypeRef::Primitive(PrimitiveType::I32),
                )
                | (
                    TypeRef::Primitive(PrimitiveType::I32),
                    BinaryOperator::Mul,
                    TypeRef::Primitive(PrimitiveType::I32),
                ) => Ok(TypeRef::Primitive(PrimitiveType::I32)),
                _ => Err(
                    TypeErrorCtx(
                        pos,
                        TypeError::InvalidBinaryOpArgs { op: *op, lhs: lhs_type, rhs: rhs_type },
                    ),
                ),
            }
        },
    }
}

/// Checks one statement, which is only read.
fn check_statement(ctx: &mut SemanticContext, scope_id: ScopeId, statement: &RastStatementCtx) -> (r:
    TypeResult<()>)
    requires
        old(ctx).wf(),
    ensures
        final(ctx).wf(),
        final(ctx)@ == spec_visit_statement(old(ctx)@, scope_id, statement@).ctx,
        r == spec_visit_statement(old(ctx)@, scope_id, statement@).result,
    decreases statement,
{
    let pos = statement.0;
    match &statement.1 {
        RastStatement::AssignLocal { local_id, value } => {
            let value_type = match resolve_expression(ctx, scope_id, value) {
                Ok(value_type) => value_type,
                Err(e) => {
                    return Err(e);
                },
            };
            let annotated = match ctx.resolve_local(scope_id, *local_id) {
                Some(local) => local.initial_type,
                None => {
                    return Err(TypeErrorCtx(pos, TypeError::UntypedLocal { local_id: *local_id }));
                },
            };
            match annotated {
                None => {
                    ctx.set_local_type(*local_id, Some(value_type));
                },
                Some(annotated_type) => {
                    if !is_assignable(ctx, annotated_type, value_type) {
                        return Err(
                            TypeErrorCtx(
                                pos,
                                TypeError::NotAssignable { target: annotated_type, x: value_type },
                            ),
                        );
                    }
                },
            }
            Ok(())
        },
        RastStatement::Block { scope_id: block_scope, inner } => {
            proof {
                lemma_rast_block_view(*statement);
            }
            let ghost models = rast_statements_view(inner@);
            let ghost goal = spec_visit_statements(ctx@, *block_scope, models, 0);
            let mut i: usize = 0;
            while i < inner.len()
                invariant
                    ctx.wf(),
                    i <= inner.len(),
                    models == rast_statements_view(inner@),
                    goal == spec_visit_statements(ctx@, *block_scope, models, i as int),
                    goal == spec_visit_statement(old(ctx)@, scope_id, statement@),
                    statement.1 == (RastStatement::Block { scope_id: *block_scope, inner: *inner }),
                decreases inner.len() - i,
            {
                assert(models[i as int] == inner@[i as int]@);
                match check_statement(ctx, *block_scope, &inner[i]) {
                    Ok(_) => {},
                    Err(e) => {
                        return Err(e);
                    },
                }
                i += 1;
            }
            Ok(())
        },
    }
}

/// Checks one statement in a scope and fixes the types of the locals that it
/// assigns for the first time. The statement is left as it is.
pub fn visit_statement(
    ctx: &mut SemanticContext,
    scope_id: ScopeId,
    statement: &mut RastStatementCtx,
) -> (r: TypeResult<()>)
    requires
        old(ctx).wf(),
    ensures
        final(ctx).wf(),
        *final(statement) == *old(statement),
        final(ctx)@ == spec_visit_statement(old(ctx)@, scope_id, old(statement)@).ctx,
        r == spec_visit_statement(old(ctx)@, scope_id, old(statement)@).result,
{
    check_statement(ctx, scope_id, &*statement)
}

/// Checks a program and fixes the types of its locals. The program is left as
/// it is.
pub fn visit_program(ctx: &mut SemanticContext, program: &mut RastProgram) -> (r: TypeResult<()>)
    requires
        old(ctx).wf(),
    ensures
        final(ctx).wf(),
        *final(program) == *old(program),
        final(ctx)@ == spec_visit_program(old(ctx)@, old(program)@).ctx,
        r == spec_visit_program(old(ctx)@, old(program)@).result,
{
    let ghost models = program@;
    let ghost goal = spec_visit_program(ctx@, models);
    let mut i: usize = 0;
    while i < program.0.len()
        invariant
            ctx.wf(),
            i <= program.0.len(),
            *program == *old(program),
            models == program@,
            goal == spec_visit_statements(ctx@, ScopeId(0), models, i as int),
            goal == spec_visit_program(old(ctx)@, old(program)@),
        decreases program.0.len() - i,
    {
        assert(models[i as int] == program.0@[i as int]@);
        match check_statement(ctx, ScopeId(0), &program.0[i]) {
            Ok(_) => {},
            Err(e) => {
                return Err(e);
            },
        }
        i += 1;
    }
    Ok(())
}

} // verus!
