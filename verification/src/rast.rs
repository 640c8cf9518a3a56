//! The resolved syntax tree: the tree after name resolution, in which every
//! name is replaced by the id of the local it refers to, and the records that
//! resolution keeps of scopes and locals.

use vstd::prelude::*;

use crate::ast_common::{BinaryOperator, UnaryOperator};

verus! {

/// The id of a scope: the number of scopes created before it.
#[derive(Clone, Copy, Debug, Eq, PartialEq, Hash, Default, Structural)]
pub struct ScopeId(pub usize);

impl ScopeId {
    /// Hands out the current id and moves on to the next one.
    pub fn next(&mut self) -> (current: ScopeId)
        requires
            old(self).0 < usize::MAX,
        ensures
            current == *old(self),
            final(self).0 == old(self).0 + 1,
    {
        let current = self.0;
        self.0 += 1;
        ScopeId(current)
    }
}

/// The id of a local: the number of locals declared before it.
#[derive(Clone, Copy, Debug, Eq, PartialEq, Hash, Default, Structural)]
pub struct LocalId(pub usize);

impl LocalId {
    /// Hands out the current id and moves on to the next one.
    pub fn next(&mut self) -> (current: LocalId)
        requires
            old(self).0 < usize::MAX,
        ensures
            current == *old(self),
            final(self).0 == old(self).0 + 1,
    {
        let current = self.0;
        self.0 += 1;
        LocalId(current)
    }
}

#[derive(Clone, Copy, Debug, Eq, PartialEq, Hash, Structural)]
pub enum TypeRef {
    Primitive(PrimitiveType),
    UserType(UserTypeId),
}

/// The id of a user type: the number of user types declared before it.
#[derive(Clone, Copy, Debug, Eq, PartialEq, Hash, Default, Structural)]
pub struct UserTypeId(pub usize);

impl UserTypeId {
    /// Hands out the current id and moves on to the next one.
    pub fn next(&mut self) -> (current: UserTypeId)
        requires
            old(self).0 < usize::MAX,
        ensures
            current == *old(self),
            final(self).0 == old(self).0 + 1,
    {
        let current = self.0;
        self.0 += 1;
        UserTypeId(current)
    }
}

#[derive(Clone, Copy, Debug, Eq, PartialEq, Hash, Structural)]
pub enum PrimitiveType {
    I32,
    Bool,
}

#[derive(Debug, PartialEq, Eq)]
pub enum UserTypeDef {
    Array(TypeRef),
}

#[derive(Debug, PartialEq, Eq)]
pub struct UserType {
    pub id: UserTypeId,
    pub type_def: UserTypeDef,
}

/// A declared variable. Its type is the declared one or, once the first
/// assignment has been checked, the inferred one.
#[derive(Debug, PartialEq, Eq)]
pub struct Local {
    pub id: LocalId,
    pub scope_id: ScopeId,
    pub initial_type: Option<TypeRef>,
    pub name: String,
}

/// The mathematical value of a `Local`. Its id is the place it has among the
/// locals of the context.
pub struct LocalModel {
    pub scope_id: ScopeId,
    pub initial_type: Option<TypeRef>,
    pub name: Seq<char>,
}

impl View for Local {
    type V = LocalModel;

    open spec fn view(&self) -> LocalModel {
        LocalModel { scope_id: self.scope_id, initial_type: self.initial_type, name: self.name@ }
    }
}

/// A node of the tree of scopes. Its locals are listed in the order of their
/// declaration.
#[derive(Debug, PartialEq, Eq)]
pub struct Scope {
    pub id: ScopeId,
    pub parent: Option<ScopeId>,
    pub locals: Vec<LocalId>,
}

/// The mathematical value of a `Scope`. Its id is the place it has among the
/// scopes of the context.
pub struct ScopeModel {
    pub parent: Option<ScopeId>,
    pub locals: Seq<LocalId>,
}

impl View for Scope {
    type V = ScopeModel;

    open spec fn view(&self) -> ScopeModel {
        ScopeModel { parent: self.parent, locals: self.locals@ }
    }
}

impl Scope {
    pub fn new(id: ScopeId, parent: Option<ScopeId>) -> (scope: Scope)
        ensures
            scope.id == id,
            scope.parent == parent,
            scope.locals@ == Seq::<LocalId>::empty(),
    {
        Scope { id, parent, locals: Vec::new() }
    }
}

#[derive(Debug, PartialEq, Eq)]
pub enum RastExpression {
    IntegerConstant(i128),
    Local(LocalId),
    UnaryOp(UnaryOperator, Box<RastExpressionCtx>),
    BinaryOp(BinaryOperator, Box<(RastExpressionCtx, RastExpressionCtx)>),
}

/// A resolved expression with the byte offset of its first token.
#[derive(Debug, PartialEq, Eq)]
pub struct RastExpressionCtx(pub usize, pub RastExpression);

#[derive(Debug, PartialEq, Eq)]
pub enum RastStatement {
    Block { scope_id: ScopeId, inner: Vec<RastStatementCtx> },
    AssignLocal { local_id: LocalId, value: RastExpressionCtx },
}

/// A resolved statement with the byte offset of its first token.
#[derive(Debug, PartialEq, Eq)]
pub struct RastStatementCtx(pub usize, pub RastStatement);

#[derive(Debug)]
pub struct RastProgram(pub Vec<RastStatementCtx>);

/// The mathematical value of a resolved statement.
pub enum RastStmtModel {
    Block { offset: usize, scope_id: ScopeId, inner: Seq<RastStmtModel> },
    AssignLocal { offset: usize, local_id: LocalId, value: RastExpressionCtx },
}

/// The value of a resolved statement.
pub open spec fn rast_statement_view(statement: RastStatementCtx) -> RastStmtModel
    decreases statement,
{
    match statement.1 {
        RastStatement::AssignLocal { local_id, value } => RastStmtModel::AssignLocal {
            offset: statement.0,
            local_id,
            value,
        },
        RastStatement::Block { scope_id, inner } => RastStmtModel::Block {
            offset: statement.0,
            scope_id,
            inner: Seq::new(
                inner.len() as nat,
                |i: int|
                    if 0 <= i < inner.len() {
                        rast_statement_view(inner[i])
                    } else {
                        arbitrary()
                    },
            ),
        },
    }
}

impl View for RastStatementCtx {
    type V = RastStmtModel;

    open spec fn view(&self) -> RastStmtModel {
        rast_statement_view(*self)
    }
}

/// The values of a sequence of resolved statements.
pub open spec fn rast_statements_view(statements: Seq<RastStatementCtx>) -> Seq<RastStmtModel> {
    Seq::new(statements.len(), |i: int| statements[i]@)
}

/// The value of a block holds the values of its statements, in order.
pub proof fn lemma_rast_block_view(statement: RastStatementCtx)
    requires
        statement.1 is Block,
    ensures
        statement@ == (RastStmtModel::Block {
            offset: statement.0,
            scope_id: statement.1->scope_id,
            inner: rast_statements_view(statement.1->inner@),
        }),
{
    let inner = statement.1->inner;
    assert(statement@->Block_inner =~= rast_statements_view(inner@));
}

impl View for RastProgram {
    type V = Seq<RastStmtModel>;

    open spec fn view(&self) -> Seq<RastStmtModel> {
        rast_statements_view(self.0@)
    }
}

} // verus!
