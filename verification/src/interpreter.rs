//! The evaluator: walks the checked tree and keeps the values of the locals.
//!
//! Numbers are 32-bit integers in two's complement: a literal is cut to its
//! low 32 bits, and negation, addition, subtraction and multiplication wrap
//! around on overflow.

use std::collections::HashMap;
use vstd::pervasive::unreached;
use vstd::prelude::*;

use crate::ast_common::{BinaryOperator, UnaryOperator};
use crate::rast::{
    lemma_rast_block_view, rast_statements_view, LocalId, RastExpression, RastProgram,
    RastStatement, RastStatementCtx, RastStmtModel,
};
use crate::semantic::SemanticContext;

verus! {

broadcast use vstd::std_specs::hash::group_hash_axioms;

#[derive(Debug, Clone, Copy, PartialEq, Eq, Structural)]
pub enum Value {
    I32(i32),
    Bool(bool),
}

/// The values of the locals assigned so far, by the number of the local's id.
pub type Environment = Map<usize, Value>;

/// The result of a binary operator on two numbers. The equality operator has
/// no evaluation rule.
pub open spec fn spec_apply(op: BinaryOperator, a: i32, b: i32) -> Option<Value> {
    match op {
        BinaryOperator::Add => Some(Value::I32(a.wrapping_add(b))),
        BinaryOperator::Sub => Some(Value::I32(a.wrapping_sub(b))),
        BinaryOperator::Mul => Some(Value::I32(a.wrapping_mul(b))),
        BinaryOperator::Equals => None,
    }
}

/// The value of an expression, or `None` where evaluation cannot go on: a
/// local without a value, an operand that is no number, or an operator
/// without an evaluation rule.
pub open spec fn spec_evaluate(env: Environment, expression: RastExpression) -> Option<Value>
    decreases expression,
{
    match expression {
        RastExpression::IntegerConstant(i) => Some(Value::I32(i as i32)),
        RastExpression::Local(local_id) => if env.contains_key(local_id.0) {
            Some(env[local_id.0])
        } else {
            None
        },
        RastExpression::UnaryOp(UnaryOperator::Negate, arg) => match spec_evaluate(env, arg.1) {
            Some(Value::I32(i)) => Some(Value::I32(0i32.wrapping_sub(i))),
            _ => None,
        },
        RastExpression::BinaryOp(op, args) => match (
            spec_evaluate(env, args.0.1),
            spec_evaluate(env, args.1.1),
        ) {
            (Some(Value::I32(a)), Some(Value::I32(b))) => spec_apply(op, a, b),
            _ => None,
        },
    }
}

/// The environment after a statement is executed, or `None` where evaluation
/// cannot go on. An assignment stores the value of its expression; a block
/// executes its statements in order.
pub open spec fn spec_execute(env: Environment, statement: RastStmtModel) -> Option<Environment>
    decreases statement, 0int,
{
    match statement {
        RastStmtModel::AssignLocal { offset, local_id, value } => match spec_evaluate(env, value.1) {
            Some(v) => Some(env.insert(local_id.0, v)),
            None => None,
        },
        RastStmtModel::Block { offset, scope_id, inner } => spec_execute_all(env, inner, 0),
    }
}

/// The environment after the statements from index `from` on are executed in
/// order.
pub open spec fn spec_execute_all(
    env: Environment,
    statements: Seq<RastStmtModel>,
    from: int,
) -> Option<Environment>
    decreases statements, statements.len() - from,
{
    if 0 <= from < statements.len() {
        match spec_execute(env, statements[from]) {
            Some(next) => spec_execute_all(next, statements, from + 1),
            None => None,
        }
    } else {
        Some(env)
    }
}

/// A statement has the same effect wherever in the text it stands.
pub proof fn lemma_execute_ignores_offset(env: Environment, a: RastStatementCtx, b: RastStatementCtx)
    requires
        a.1 == b.1,
    ensures
        spec_execute(env, a@) == spec_execute(env, b@),
{
    if a.1 is Block {
        lemma_rast_block_view(a);
        lemma_rast_block_view(b);
    }
}

/// The statement that stands at offset 0 and is otherwise `statement`.
pub open spec fn at_origin(statement: RastStatement) -> RastStmtModel {
    RastStatementCtx(0, statement)@
}

pub struct Interpreter {
    semantic_ctx: SemanticContext,
    pub locals: HashMap<usize, Value>,
}

impl Interpreter {
    /// The values of the locals assigned so far.
    pub closed spec fn env(&self) -> Environment {
        self.locals@
    }

    pub fn new(semantic_ctx: SemanticContext) -> (interpreter: Interpreter)
        ensures
            interpreter.env() == Map::<usize, Value>::empty(),
    {
        Interpreter { semantic_ctx, locals: HashMap::new() }
    }

    /// The value that a local has, if it was assigned.
    pub fn value_of(&self, local_id: LocalId) -> (value: Option<Value>)
        ensures
            value == (if self.env().contains_key(local_id.0) {
                Some(self.env()[local_id.0])
            } else {
                None
            }),
    {
        match self.locals.get(&local_id.0) {
            Some(value) => Some(*value),
            None => None,
        }
    }

    /// The value of an expression that can be evaluated.
    fn evaluate(&mut self, expression: &RastExpression) -> (value: Value)
        requires
            spec_evaluate(old(self).env(), *expression) is Some,
        ensures
            final(self).env() == old(self).env(),
            Some(value) == spec_evaluate(old(self).env(), *expression),
        decreases expression,
    {
        match expression {
            RastExpression::IntegerConstant(i) => Value::I32(#[verifier::truncate] (*i as i32)),
            RastExpression::Local(local_id) => {
                match self.locals.get(&local_id.0) {
                    Some(value) => *value,
                    None => unreached(),
                }
            },
            RastExpression::UnaryOp(op, expr) => {
                match self.evaluate(&expr.1) {
                    Value::I32(i) => Value::I32((0i32).wrapping_sub(i)),
                    _ => unreached(),
                }
            },
            RastExpression::BinaryOp(op, args) => {
                let lhs = self.evaluate(&(args.0).1);
                let rhs = self.evaluate(&(args.1).1);

                match (lhs, op, rhs) {
                    (Value::I32(a), BinaryOperator::Add, Value::I32(b)) => Value::I32(
                        a.wrapping_add(b),
                    ),
                    (Value::I32(a), BinaryOperator::Sub, Value::I32(b)) => Value::I32(
                        a.wrapping_sub(b),
                    ),
                    (Value::I32(a), BinaryOperator::Mul, Value::I32(b)) => Value::I32(
                        a.wrapping_mul(b),
                    ),
                    _ => unreached(),
                }
            },
        }
    }

    /// Executes a statement that can be executed. No statement has a value.
    pub fn execute(&mut self, statement: &RastStatement) -> (r: Option<Value>)
        requires
            spec_execute(old(self).env(), at_origin(*statement)) is Some,
        ensures
            r is None,
            Some(final(self).env()) == spec_execute(old(self).env(), at_origin(*statement)),
        decreases statement,
    {
        match statement {
            RastStatement::AssignLocal { local_id, value } => {
                let rhs = self.evaluate(&value.1);
                self.locals.insert(local_id.0, rhs);
                None
            },
            RastStatement::Block { scope_id, inner } => {
                proof {
                    lemma_rast_block_view(RastStatementCtx(0, *statement));
                }
                let ghost models = rast_statements_view(inner@);
                let ghost goal = spec_execute_all(self.env(), models, 0);
                let mut i: usize = 0;
                while i < inner.len()
                    invariant
                        i <= inner.len(),
                        models == rast_statements_view(inner@),
                        goal is Some,
                        goal == spec_execute_all(self.env(), models, i as int),
                        goal == spec_execute(old(self).env(), at_origin(*statement)),
                        *statement == (RastStatement::Block { scope_id: *scope_id, inner: *inner }),
                    decreases inner.len() - i,
                {
                    proof {
                        assert(models[i as int] == inner@[i as int]@);
                        lemma_execute_ignores_offset(
                            self.env(),
                            inner@[i as int],
                            RastStatementCtx(0, inner@[i as int].1),
                        );
                    }
                    self.execute(&inner[i].1);
                    i += 1;
                }
                None
            },
        }
    }

    /// Executes the statements of a program in order.
    pub fn execute_program(&mut self, program: &RastProgram)
        requires
            spec_execute_all(old(self).env(), program@, 0) is Some,
        ensures
            Some(final(self).env()) == spec_execute_all(old(self).env(), program@, 0),
    {
        let ghost models = program@;
        let ghost goal = spec_execute_all(self.env(), models, 0);
        let mut i: usize = 0;
        while i < program.0.len()
            invariant
                i <= program.0.len(),
                models == program@,
                goal is Some,
                goal == spec_execute_all(self.env(), models, i as int),
                goal == spec_execute_all(old(self).env(), program@, 0),
            decreases program.0.len() - i,
        {
            proof {
                assert(models[i as int] == program.0@[i as int]@);
                lemma_execute_ignores_offset(
                    self.env(),
                    program.0@[i as int],
                    RastStatementCtx(0, program.0@[i as int].1),
                );
            }
            self.execute(&program.0[i].1);
            i += 1;
        }
    }
}

} // verus!
