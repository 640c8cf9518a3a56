//! The syntax tree that the parser builds: names are still text.

use vstd::prelude::*;

pub use crate::ast_common::{BinaryOperator, Operator, UnaryOperator};

verus! {

#[derive(PartialEq, Eq, Debug)]
pub enum Expression {
    IntegerConstant(i128),
    Local(String),
    BinaryOp(BinaryOperator, Box<(ExpressionCtx, ExpressionCtx)>),
    UnaryOp(UnaryOperator, Box<ExpressionCtx>),
}

/// An expression with the byte offset of its first token.
#[derive(PartialEq, Eq, Debug)]
pub struct ExpressionCtx(pub usize, pub Expression);

/// A name with the byte offset at which it stands.
#[derive(Clone, PartialEq, Eq, Debug)]
pub struct IdentifierCtx(pub usize, pub String);

#[derive(PartialEq, Eq, Debug)]
pub enum Statement {
    DeclareVariable {
        name: IdentifierCtx,
        is_mutable: bool,
        initial_type: Option<IdentifierCtx>,
        initial_value: ExpressionCtx,
    },
    AssignLocal { local: IdentifierCtx, value: ExpressionCtx },
    Block { inner: Vec<StatementCtx> },
}

/// A statement with the byte offset of its first token.
#[derive(PartialEq, Eq, Debug)]
pub struct StatementCtx(pub usize, pub Statement);

#[derive(PartialEq, Eq, Debug)]
pub struct Block(pub Vec<StatementCtx>);

#[derive(PartialEq, Eq, Debug)]
pub struct Program(pub Vec<StatementCtx>);

/// The mathematical value of an expression: its offset, and names as
/// sequences of characters.
pub enum ExprModel {
    IntegerConstant(usize, i128),
    Local(usize, Seq<char>),
    UnaryOp(usize, UnaryOperator, Box<ExprModel>),
    BinaryOp(usize, BinaryOperator, Box<ExprModel>, Box<ExprModel>),
}

impl ExprModel {
    /// The byte offset that the expression is tagged with.
    pub open spec fn offset(self) -> usize {
        match self {
            ExprModel::IntegerConstant(offset, _) => offset,
            ExprModel::Local(offset, _) => offset,
            ExprModel::UnaryOp(offset, _, _) => offset,
            ExprModel::BinaryOp(offset, _, _, _) => offset,
        }
    }
}

/// The mathematical value of an `IdentifierCtx`.
pub struct IdentModel {
    pub offset: usize,
    pub name: Seq<char>,
}

/// The mathematical value of a statement.
pub enum StmtModel {
    DeclareVariable {
        offset: usize,
        name: IdentModel,
        is_mutable: bool,
        initial_type: Option<IdentModel>,
        initial_value: ExprModel,
    },
    AssignLocal { offset: usize, local: IdentModel, value: ExprModel },
    Block { offset: usize, inner: Seq<StmtModel> },
}

/// The value of an expression.
pub open spec fn expression_view(expression: ExpressionCtx) -> ExprModel
    decreases expression,
{
    match expression.1 {
        Expression::IntegerConstant(value) => ExprModel::IntegerConstant(expression.0, value),
        Expression::Local(name) => ExprModel::Local(expression.0, name@),
        Expression::UnaryOp(op, arg) => ExprModel::UnaryOp(
            expression.0,
            op,
            Box::new(expression_view(*arg)),
        ),
        Expression::BinaryOp(op, args) => ExprModel::BinaryOp(
            expression.0,
            op,
            Box::new(expression_view(args.0)),
            Box::new(expression_view(args.1)),
        ),
    }
}

impl StmtModel {
    /// The byte offset that the statement is tagged with.
    pub open spec fn offset(self) -> usize {
        match self {
            StmtModel::DeclareVariable { offset, .. } => offset,
            StmtModel::AssignLocal { offset, .. } => offset,
            StmtModel::Block { offset, .. } => offset,
        }
    }
}

impl View for ExpressionCtx {
    type V = ExprModel;

    open spec fn view(&self) -> ExprModel {
        expression_view(*self)
    }
}

impl View for IdentifierCtx {
    type V = IdentModel;

    open spec fn view(&self) -> IdentModel {
        IdentModel { offset: self.0, name: self.1@ }
    }
}

/// The value of an optional type annotation.
pub open spec fn annotation_view(annotation: Option<IdentifierCtx>) -> Option<IdentModel> {
    match annotation {
        Some(name) => Some(name@),
        None => None,
    }
}

/// The value of a statement.
pub open spec fn statement_view(statement: StatementCtx) -> StmtModel
    decreases statement,
{
    match statement.1 {
        Statement::DeclareVariable { name, is_mutable, initial_type, initial_value } => {
            StmtModel::DeclareVariable {
                offset: statement.0,
                name: name@,
                is_mutable,
                initial_type: annotation_view(initial_type),
                initial_value: initial_value@,
            }
        },
        Statement::AssignLocal { local, value } => StmtModel::AssignLocal {
            offset: statement.0,
            local: local@,
            value: value@,
        },
        Statement::Block { inner } => StmtModel::Block {
            offset: statement.0,
            inner: Seq::new(
                inner.len() as nat,
                |i: int|
                    if 0 <= i < inner.len() {
                        statement_view(inner[i])
                    } else {
                        arbitrary()
                    },
            ),
        },
    }
}

impl View for StatementCtx {
    type V = StmtModel;

    open spec fn view(&self) -> StmtModel {
        statement_view(*self)
    }
}

/// The values of a sequence of statements.
pub open spec fn statements_view(statements: Seq<StatementCtx>) -> Seq<StmtModel> {
    Seq::new(statements.len(), |i: int| statements[i]@)
}

/// The value of a block holds the values of its statements, in order.
pub proof fn lemma_block_view(statement: StatementCtx)
    requires
        statement.1 is Block,
    ensures
        statement@ == (StmtModel::Block {
            offset: statement.0,
            inner: statements_view(statement.1->inner@),
        }),
{
    let inner = statement.1->inner;
    assert(statement@->Block_inner =~= statements_view(inner@));
}

impl View for Program {
    type V = Seq<StmtModel>;

    open spec fn view(&self) -> Seq<StmtModel> {
        statements_view(self.0@)
    }
}

/// A copy of a name.
fn copy_identifier(name: &IdentifierCtx) -> (copy: IdentifierCtx)
    ensures
        copy == *name,
{
    IdentifierCtx(name.0, name.1.clone())
}

/// A copy of an expression.
fn copy_expression(expression: &ExpressionCtx) -> (copy: ExpressionCtx)
    ensures
        copy == *expression,
    decreases expression,
{
    let node = match &expression.1 {
        Expression::IntegerConstant(value) => Expression::IntegerConstant(*value),
        Expression::Local(name) => Expression::Local(name.clone()),
        Expression::UnaryOp(op, arg) => Expression::UnaryOp(*op, Box::new(copy_expression(arg))),
        Expression::BinaryOp(op, args) => Expression::BinaryOp(
            *op,
            Box::new((copy_expression(&args.0), copy_expression(&args.1))),
        ),
    };
    ExpressionCtx(expression.0, node)
}

/// A copy of a statement.
fn copy_statement(statement: &StatementCtx) -> (copy: StatementCtx)
    ensures
        copy@ == statement@,
    decreases statement,
{
    let node = match &statement.1 {
        Statement::DeclareVariable { name, is_mutable, initial_type, initial_value } => {
            Statement::DeclareVariable {
                name: copy_identifier(name),
                is_mutable: *is_mutable,
                initial_type: match initial_type {
                    Some(annotation) => Some(copy_identifier(annotation)),
                    None => None,
                },
                initial_value: copy_expression(initial_value),
            }
        },
        Statement::AssignLocal { local, value } => Statement::AssignLocal {
            local: copy_identifier(local),
            value: copy_expression(value),
        },
        Statement::Block { inner } => {
            let mut copies: Vec<StatementCtx> = Vec::new();
            let mut i: usize = 0;
            while i < inner.len()
                invariant
                    i <= inner.len(),
                    copies.len() == i,
                    forall|j: int| 0 <= j < i ==> (#[trigger] copies@[j])@ == inner@[j]@,
                    statement.1 == (Statement::Block { inner: *inner }),
                decreases inner.len() - i,
            {
                assert(decreases_to!(statement.1 => statement.1->inner));
                copies.push(copy_statement(&inner[i]));
                i += 1;
            }
            proof {
                lemma_block_view(*statement);
                lemma_block_view(StatementCtx(statement.0, Statement::Block { inner: copies }));
                assert(statements_view(copies@) =~= statements_view(inner@));
            }
            Statement::Block { inner: copies }
        },
    };
    StatementCtx(statement.0, node)
}

/// Copies of statements.
fn copy_statements(statements: &Vec<StatementCtx>) -> (copies: Vec<StatementCtx>)
    ensures
        statements_view(copies@) == statements_view(statements@),
{
    let mut copies: Vec<StatementCtx> = Vec::new();
    let mut i: usize = 0;
    while i < statements.len()
        invariant
            i <= statements.len(),
            copies.len() == i,
            forall|j: int| 0 <= j < i ==> (#[trigger] copies@[j])@ == statements@[j]@,
        decreases statements.len() - i,
    {
        copies.push(copy_statement(&statements[i]));
        i += 1;
    }
    assert(statements_view(copies@) =~= statements_view(statements@));
    copies
}

impl Clone for ExpressionCtx {
    fn clone(&self) -> (copy: ExpressionCtx)
        ensures
            copy == *self,
    {
        copy_expression(self)
    }
}

impl Clone for Expression {
    fn clone(&self) -> (copy: Expression)
        ensures
            copy == *self,
    {
        match self {
            Expression::IntegerConstant(value) => Expression::IntegerConstant(*value),
            Expression::Local(name) => Expression::Local(name.clone()),
            Expression::UnaryOp(op, arg) => Expression::UnaryOp(*op, Box::new(copy_expression(arg))),
            Expression::BinaryOp(op, args) => Expression::BinaryOp(
                *op,
                Box::new((copy_expression(&args.0), copy_expression(&args.1))),
            ),
        }
    }
}

impl Clone for StatementCtx {
    fn clone(&self) -> (copy: StatementCtx)
        ensures
            copy@ == self@,
    {
        copy_statement(self)
    }
}

impl Clone for Statement {
    fn clone(&self) -> (copy: Statement)
        ensures
            StatementCtx(0, copy)@ == StatementCtx(0, *self)@,
    {
        match self {
            Statement::DeclareVariable { name, is_mutable, initial_type, initial_value } => {
                Statement::DeclareVariable {
                    name: copy_identifier(name),
                    is_mutable: *is_mutable,
                    initial_type: match initial_type {
                        Some(annotation) => Some(copy_identifier(annotation)),
                        None => None,
                    },
                    initial_value: copy_expression(initial_value),
                }
            },
            Statement::AssignLocal { local, value } => Statement::AssignLocal {
                local: copy_identifier(local),
                value: copy_expression(value),
            },
            Statement::Block { inner } => {
                let copies = copy_statements(inner);
                proof {
                    lemma_block_view(StatementCtx(0, *self));
                    lemma_block_view(StatementCtx(0, Statement::Block { inner: copies }));
                }
                Statement::Block { inner: copies }
            },
        }
    }
}

impl Clone for Block {
    fn clone(&self) -> (copy: Block)
        ensures
            statements_view(copy.0@) == statements_view(self.0@),
    {
        Block(copy_statements(&self.0))
    }
}

impl Clone for Program {
    fn clone(&self) -> (copy: Program)
        ensures
            copy@ == self@,
    {
        Program(copy_statements(&self.0))
    }
}

} // verus!
