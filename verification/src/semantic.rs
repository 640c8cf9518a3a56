//! Name resolution: builds the tree of scopes, declares locals and replaces
//! each name by the id of the local it refers to.
//!
//! A name refers to the nearest visible declaration: the scopes are searched
//! from the current one outwards, and in one scope the latest declaration of a
//! name hides the earlier ones. Declaring a name again in the same scope is
//! allowed and shadows the earlier local from then on. The initial value of a
//! declaration is resolved before the declared name is bound, so that a
//! declaration cannot refer to the local it is about to create.

use vstd::prelude::*;
use vstd::string::*;

use crate::ast::{
    lemma_block_view, statements_view, ExprModel, Expression, ExpressionCtx, IdentModel,
    IdentifierCtx, Program, Statement, StatementCtx, StmtModel,
};
use crate::rast::{
    lemma_rast_block_view, rast_statements_view, Local, LocalId, LocalModel, PrimitiveType,
    RastExpression, RastExpressionCtx, RastProgram, RastStatement, RastStatementCtx,
    RastStmtModel, Scope, ScopeId, ScopeModel, TypeRef, UserType, UserTypeId,
};
use crate::text::str_equal;

verus! {

#[derive(Debug, PartialEq, Eq)]
pub enum SemanticError {
    UnknownType { name: String },
    UnknownLocal { name: String },
}

/// The mathematical value of a `SemanticError`.
pub enum SemanticErrorModel {
    UnknownType { name: Seq<char> },
    UnknownLocal { name: Seq<char> },
}

impl View for SemanticError {
    type V = SemanticErrorModel;

    open spec fn view(&self) -> SemanticErrorModel {
        match self {
            SemanticError::UnknownType { name } => SemanticErrorModel::UnknownType { name: name@ },
            SemanticError::UnknownLocal { name } => SemanticErrorModel::UnknownLocal {
                name: name@,
            },
        }
    }
}

/// A resolution error with the byte offset at which it was found.
#[derive(Debug, PartialEq, Eq)]
pub struct SemanticErrorCtx(pub usize, pub SemanticError);

/// The mathematical value of a `SemanticErrorCtx`.
pub struct SemanticFailure {
    pub offset: usize,
    pub error: SemanticErrorModel,
}

impl View for SemanticErrorCtx {
    type V = SemanticFailure;

    open spec fn view(&self) -> SemanticFailure {
        SemanticFailure { offset: self.0, error: self.1@ }
    }
}

pub type SemanticResult<T> = Result<T, SemanticErrorCtx>;

/// The mathematical value of a resolution context: the scopes and the locals
/// created so far, each at the place that its id names.
pub struct ContextModel {
    pub scopes: Seq<ScopeModel>,
    pub locals: Seq<LocalModel>,
    pub user_types: Seq<UserType>,
}

impl ContextModel {
    /// The context before anything is declared.
    pub open spec fn empty() -> ContextModel {
        ContextModel { scopes: seq![], locals: seq![], user_types: seq![] }
    }

    /// The scopes form a tree in which every parent was created before its
    /// children, every local lies in a scope that exists, and each scope
    /// lists only locals that exist and lie in it.
    pub open spec fn wf(self) -> bool {
        &&& forall|s: int|
            0 <= s < self.scopes.len() ==> match (#[trigger] self.scopes[s]).parent {
                Some(p) => p.0 < s,
                None => true,
            }
        &&& forall|l: int|
            0 <= l < self.locals.len() ==> (#[trigger] self.locals[l]).scope_id.0
                < self.scopes.len()
        &&& forall|s: int, j: int|
            0 <= s < self.scopes.len() && 0 <= j < self.scopes[s].locals.len() ==> {
                let l = #[trigger] self.scopes[s].locals[j];
                l.0 < self.locals.len() && self.locals[l.0 as int].scope_id.0 == s
            }
    }

    /// Whether a scope with this id exists.
    pub open spec fn has_scope(self, scope: ScopeId) -> bool {
        scope.0 < self.scopes.len()
    }

    /// Whether a local with this id exists.
    pub open spec fn has_local(self, local: LocalId) -> bool {
        local.0 < self.locals.len()
    }

    /// Whether `ancestor` is `scope` or lies on the way from `scope` to the
    /// root.
    pub open spec fn encloses(self, ancestor: ScopeId, scope: ScopeId) -> bool
        decreases scope.0,
    {
        self.has_scope(scope) && (ancestor == scope || match self.scopes[scope.0 as int].parent {
            Some(p) => p.0 < scope.0 && self.encloses(ancestor, p),
            None => false,
        })
    }

    /// Whether a local can be seen from a scope: it was declared in that scope
    /// or in one that encloses it.
    pub open spec fn visible(self, scope: ScopeId, local: LocalId) -> bool {
        self.has_local(local) && self.encloses(self.locals[local.0 as int].scope_id, scope)
    }

    /// The latest of the locals `owned` that has the given name.
    pub open spec fn find_in(self, owned: Seq<LocalId>, name: Seq<char>) -> Option<LocalId>
        decreases owned.len(),
    {
        if owned.len() == 0 {
            None
        } else if self.has_local(owned.last()) && self.locals[owned.last().0 as int].name == name {
            Some(owned.last())
        } else {
            self.find_in(owned.drop_last(), name)
        }
    }

    /// The local that a name refers to in a scope: the latest local of that
    /// name in the nearest scope, from `scope` outwards, that has one.
    pub open spec fn lookup(self, scope: ScopeId, name: Seq<char>) -> Option<LocalId>
        decreases scope.0,
    {
        if !self.has_scope(scope) {
            None
        } else {
            match self.find_in(self.scopes[scope.0 as int].locals, name) {
                Some(local) => Some(local),
                None => match self.scopes[scope.0 as int].parent {
                    Some(p) if p.0 < scope.0 => self.lookup(p, name),
                    _ => None,
                },
            }
        }
    }

    /// The context after a scope is created below `parent`.
    pub open spec fn declare_scope(self, parent: Option<ScopeId>) -> ContextModel {
        ContextModel {
            scopes: self.scopes.push(ScopeModel { parent, locals: seq![] }),
            ..self
        }
    }

    /// The context after a local is declared in `scope`, which has to exist
    /// for the local to be listed in it.
    pub open spec fn declare_local(
        self,
        scope: ScopeId,
        name: Seq<char>,
        initial_type: Option<TypeRef>,
    ) -> ContextModel {
        let id = LocalId(self.locals.len() as usize);
        let owner = self.scopes[scope.0 as int];
        ContextModel {
            scopes: if self.has_scope(scope) {
                self.scopes.update(
                    scope.0 as int,
                    ScopeModel { locals: owner.locals.push(id), ..owner },
                )
            } else {
                self.scopes
            },
            locals: self.locals.push(LocalModel { scope_id: scope, initial_type, name }),
            ..self
        }
    }

    /// The context after the type of a local is set.
    pub open spec fn set_type(self, local: LocalId, initial_type: Option<TypeRef>) -> ContextModel {
        let before = self.locals[local.0 as int];
        ContextModel {
            locals: self.locals.update(local.0 as int, LocalModel { initial_type, ..before }),
            ..self
        }
    }
}

/// The type that a type name denotes.
pub open spec fn spec_named_type(name: IdentModel) -> Result<TypeRef, SemanticFailure> {
    if name.name == "i32"@ {
        Ok(TypeRef::Primitive(PrimitiveType::I32))
    } else if name.name == "bool"@ {
        Ok(TypeRef::Primitive(PrimitiveType::Bool))
    } else {
        Err(
            SemanticFailure {
                offset: name.offset,
                error: SemanticErrorModel::UnknownType { name: name.name },
            },
        )
    }
}

/// What a result that holds a type stands for.
pub open spec fn type_result_view(r: SemanticResult<TypeRef>) -> Result<TypeRef, SemanticFailure> {
    match r {
        Ok(t) => Ok(t),
        Err(e) => Err(e@),
    }
}

/// The failure for a name that no visible local has.
pub open spec fn unknown_local(offset: usize, name: Seq<char>) -> SemanticFailure {
    SemanticFailure { offset, error: SemanticErrorModel::UnknownLocal { name } }
}

/// The resolved form of an expression in a scope: each name is replaced by
/// the local it refers to. The first name, from left to right, that refers to
/// nothing is the failure.
pub open spec fn spec_transform_expression(
    ctx: ContextModel,
    scope: ScopeId,
    expression: ExprModel,
) -> Result<RastExpressionCtx, SemanticFailure>
    decreases expression,
{
    match expression {
        ExprModel::IntegerConstant(offset, value) => Ok(
            RastExpressionCtx(offset, RastExpression::IntegerConstant(value)),
        ),
        ExprModel::Local(offset, name) => match ctx.lookup(scope, name) {
            Some(local_id) => Ok(RastExpressionCtx(offset, RastExpression::Local(local_id))),
            None => Err(unknown_local(offset, name)),
        },
        ExprModel::UnaryOp(offset, op, arg) => match spec_transform_expression(ctx, scope, *arg) {
            Ok(value) => Ok(RastExpressionCtx(offset, RastExpression::UnaryOp(op, Box::new(value)))),
            Err(failure) => Err(failure),
        },
        ExprModel::BinaryOp(offset, op, lhs, rhs) => match spec_transform_expression(
            ctx,
            scope,
            *lhs,
        ) {
            Ok(left) => match spec_transform_expression(ctx, scope, *rhs) {
                Ok(right) => Ok(
                    RastExpressionCtx(offset, RastExpression::BinaryOp(op, Box::new((left, right)))),
                ),
                Err(failure) => Err(failure),
            },
            Err(failure) => Err(failure),
        },
    }
}

/// What resolution gives: the context as it stands afterwards, and the
/// resolved tree or the failure.
pub struct Resolved<T> {
    pub ctx: ContextModel,
    pub result: Result<T, SemanticFailure>,
}

/// The type that an optional annotation denotes.
pub open spec fn spec_annotated_type(annotation: Option<IdentModel>) -> Result<
    Option<TypeRef>,
    SemanticFailure,
> {
    match annotation {
        Some(name) => match spec_named_type(name) {
            Ok(named) => Ok(Some(named)),
            Err(failure) => Err(failure),
        },
        None => Ok(None),
    }
}

/// Resolves one statement in a scope.
///
/// A block creates one scope below the current one and resolves its statements
/// in it. An assignment resolves its target, then its value. A declaration
/// resolves its annotation, then its initial value, then declares a new local
/// in the current scope; it becomes an assignment to that local.
pub open spec fn spec_transform_statement(
    ctx: ContextModel,
    scope: ScopeId,
    statement: StmtModel,
) -> Resolved<RastStmtModel>
    decreases statement, 0int,
{
    match statement {
        StmtModel::Block { offset, inner } => {
            let scope_id = ScopeId(ctx.scopes.len() as usize);
            let resolved = spec_transform_statements(
                ctx.declare_scope(Some(scope)),
                scope_id,
                inner,
                0,
            );
            Resolved {
                ctx: resolved.ctx,
                result: match resolved.result {
                    Ok(statements) => Ok(
                        RastStmtModel::Block { offset, scope_id, inner: statements },
                    ),
                    Err(failure) => Err(failure),
                },
            }
        },
        StmtModel::AssignLocal { offset, local, value } => Resolved {
            ctx,
            result: match ctx.lookup(scope, local.name) {
                Some(local_id) => match spec_transform_expression(ctx, scope, value) {
                    Ok(value) => Ok(
                        RastStmtModel::AssignLocal { offset: local.offset, local_id, value },
                    ),
                    Err(failure) => Err(failure),
                },
                None => Err(unknown_local(local.offset, local.name)),
            },
        },
        StmtModel::DeclareVariable { offset, name, is_mutable, initial_type, initial_value } => {
            match spec_annotated_type(initial_type) {
                Ok(declared) => match spec_transform_expression(ctx, scope, initial_value) {
                    Ok(value) => Resolved {
                        ctx: ctx.declare_local(scope, name.name, declared),
                        result: Ok(
                            RastStmtModel::AssignLocal {
                                offset,
                                local_id: LocalId(ctx.locals.len() as usize),
                                value,
                            },
                        ),
                    },
                    Err(failure) => Resolved { ctx, result: Err(failure) },
                },
                Err(failure) => Resolved { ctx, result: Err(failure) },
            }
        },
    }
}

/// Resolves the statements from index `from` on, one after the other, each in
/// the context that the one before has left, up to the first failure.
pub open spec fn spec_transform_statements(
    ctx: ContextModel,
    scope: ScopeId,
    statements: Seq<StmtModel>,
    from: int,
) -> Resolved<Seq<RastStmtModel>>
    decreases statements, statements.len() - from,
{
    if 0 <= from < statements.len() {
        let first = spec_transform_statement(ctx, scope, statements[from]);
        match first.result {
            Ok(statement) => followed_by(
                seq![statement],
                spec_transform_statements(first.ctx, scope, statements, from + 1),
            ),
            Err(failure) => Resolved { ctx: first.ctx, result: Err(failure) },
        }
    } else {
        Resolved { ctx, result: Ok(seq![]) }
    }
}

/// Puts resolved statements in front of those that resolution went on to give.
pub open spec fn followed_by(
    first: Seq<RastStmtModel>,
    more: Resolved<Seq<RastStmtModel>>,
) -> Resolved<Seq<RastStmtModel>> {
    Resolved {
        ctx: more.ctx,
        result: match more.result {
            Ok(statements) => Ok(first + statements),
            Err(failure) => Err(failure),
        },
    }
}

/// Resolves a program: in a new context, creates the root scope and resolves
/// the statements in it.
pub open spec fn spec_transform_program(program: Seq<StmtModel>) -> Resolved<Seq<RastStmtModel>> {
    spec_transform_statements(ContextModel::empty().declare_scope(None), ScopeId(0), program, 0)
}

/// The state of name resolution: every scope and every local created so far.
/// Ids are handed out in order, so the id of a scope, a local or a user type
/// is its index.
#[derive(Debug, PartialEq, Eq)]
pub struct SemanticContext {
    user_types: Vec<UserType>,
    scopes: Vec<Scope>,
    locals: Vec<Local>,
}

impl View for SemanticContext {
    type V = ContextModel;

    closed spec fn view(&self) -> ContextModel {
        ContextModel {
            scopes: Seq::new(self.scopes@.len(), |i: int| self.scopes@[i]@),
            locals: Seq::new(self.locals@.len(), |i: int| self.locals@[i]@),
            user_types: self.user_types@,
        }
    }
}

impl SemanticContext {
    /// The records are consistent, and each one carries the id of its place.
    pub closed spec fn wf(&self) -> bool {
        &&& self@.wf()
        &&& forall|i: int| 0 <= i < self.scopes@.len() ==> (#[trigger] self.scopes@[i]).id.0 == i
        &&& forall|i: int| 0 <= i < self.locals@.len() ==> (#[trigger] self.locals@[i]).id.0 == i
    }

    pub fn new() -> (ctx: SemanticContext)
        ensures
            ctx.wf(),
            ctx@ == ContextModel::empty(),
    {
        let ctx = SemanticContext { user_types: Vec::new(), scopes: Vec::new(), locals: Vec::new() };
        assert(ctx@.scopes =~= Seq::<ScopeModel>::empty());
        assert(ctx@.locals =~= Seq::<LocalModel>::empty());
        assert(ctx@.user_types =~= Seq::<UserType>::empty());
        ctx
    }

    /// The scopes and the locals of a context can be counted in a machine
    /// word.
    pub proof fn lemma_counts_fit(&self)
        ensures
            self@.scopes.len() <= usize::MAX,
            self@.locals.len() <= usize::MAX,
    {
        assert(self.scopes@.len() == self.scopes.len());
        assert(self.locals@.len() == self.locals.len());
    }

    /// The number of locals declared so far.
    pub fn local_count(&self) -> (count: usize)
        ensures
            count == self@.locals.len(),
    {
        self.locals.len()
    }

    /// The number of scopes created so far.
    pub fn scope_count(&self) -> (count: usize)
        ensures
            count == self@.scopes.len(),
    {
        self.scopes.len()
    }

    /// Declares a local in a scope and returns its id.
    pub fn declare_local(
        &mut self,
        scope_id: ScopeId,
        name: String,
        initial_type: Option<TypeRef>,
    ) -> (id: LocalId)
        requires
            old(self).wf(),
            old(self)@.has_scope(scope_id),
        ensures
            final(self).wf(),
            id.0 == old(self)@.locals.len(),
            final(self)@ == old(self)@.declare_local(scope_id, name@, initial_type),
    {
        let id = LocalId(self.locals.len());
        self.scopes[scope_id.0].locals.push(id);
        self.locals.push(Local { id, scope_id, name, initial_type });
        proof {
            let before = old(self)@;
            let after = before.declare_local(scope_id, name@, initial_type);
            assert(self@.scopes =~= after.scopes);
            assert(self@.locals =~= after.locals);
        }
        id
    }

    /// Declares a user type and returns a reference to it. The type is known
    /// by the number of user types declared before it, whatever id its record
    /// carries.
    pub fn declare_type(&mut self, type_: UserType) -> (r: TypeRef)
        requires
            old(self).wf(),
        ensures
            final(self).wf(),
            r matches TypeRef::UserType(id) && id.0 == old(self)@.user_types.len(),
            final(self)@ == (ContextModel {
                user_types: old(self)@.user_types.push(type_),
                ..old(self)@
            }),
    {
        let id = UserTypeId(self.user_types.len());
        self.user_types.push(type_);
        proof {
            assert(self@.scopes =~= old(self)@.scopes);
            assert(self@.locals =~= old(self)@.locals);
        }
        TypeRef::UserType(id)
    }

    /// Creates a scope below `parent`, or a root, and returns its id.
    pub fn declare_scope(&mut self, parent: Option<ScopeId>) -> (id: ScopeId)
        requires
            old(self).wf(),
            parent matches Some(p) ==> old(self)@.has_scope(p),
        ensures
            final(self).wf(),
            id.0 == old(self)@.scopes.len(),
            final(self)@ == old(self)@.declare_scope(parent),
    {
        let id = ScopeId(self.scopes.len());
        let scope = Scope::new(id, parent);
        self.scopes.push(scope);
        proof {
            let after = old(self)@.declare_scope(parent);
            assert(self@.scopes =~= after.scopes);
            assert(self@.locals =~= after.locals);
        }
        id
    }

    /// The type that a type name denotes: `i32` or `bool`.
    pub fn resolve_named_type(&self, name: &IdentifierCtx) -> (r: SemanticResult<TypeRef>)
        ensures
            type_result_view(r) == spec_named_type(name@),
    {
        if str_equal(name.1.as_str(), "i32") {
            Ok(TypeRef::Primitive(PrimitiveType::I32))
        } else if str_equal(name.1.as_str(), "bool") {
            Ok(TypeRef::Primitive(PrimitiveType::Bool))
        } else {
            Err(SemanticErrorCtx(name.0, SemanticError::UnknownType { name: name.1.clone() }))
        }
    }

    /// The record of a scope.
    pub fn resolve_scope(&self, scope_id: ScopeId) -> (scope: &Scope)
        requires
            self.wf(),
            self@.has_scope(scope_id),
        ensures
            scope.id == scope_id,
            scope@ == self@.scopes[scope_id.0 as int],
    {
        &self.scopes[scope_id.0]
    }

    /// Whether a local can be seen from a scope.
    pub fn is_local_within_scope(&self, scope_id: ScopeId, local_id: LocalId) -> (within: bool)
        requires
            self.wf(),
            self@.has_scope(scope_id),
            self@.has_local(local_id),
        ensures
            within == self@.visible(scope_id, local_id),
    {
        let owner = self.locals[local_id.0].scope_id;
        let mut current = scope_id;
        loop
            invariant
                self.wf(),
                self@.has_scope(current),
                self@.has_local(local_id),
                owner == self@.locals[local_id.0 as int].scope_id,
                self@.encloses(owner, current) == self@.encloses(owner, scope_id),
            decreases current.0,
        {
            let scope = self.resolve_scope(current);
            if scope.id == owner {
                return true;
            }
            match scope.parent {
                Some(parent) => {
                    current = parent;
                },
                None => {
                    return false;
                },
            }
        }
    }

    /// The local that a name refers to in a scope, if there is one.
    pub fn resolve_named_local(&self, scope_id: ScopeId, name: &str) -> (found: Option<LocalId>)
        requires
            self.wf(),
        ensures
            found == self@.lookup(scope_id, name@),
    {
        if scope_id.0 >= self.scopes.len() {
            return None;
        }
        let mut current = scope_id;
        loop
            invariant
                self.wf(),
                self@.has_scope(current),
                self@.lookup(current, name@) == self@.lookup(scope_id, name@),
            decreases current.0,
        {
            let scope = self.resolve_scope(current);
            let ghost owned = scope@.locals;
            let mut j = scope.locals.len();
            proof {
                assert(owned.take(j as int) =~= owned);
            }
            while j > 0
                invariant
                    self.wf(),
                    self@.has_scope(current),
                    owned == self@.scopes[current.0 as int].locals,
                    owned == scope.locals@,
                    j <= owned.len(),
                    self@.lookup(current, name@) == self@.lookup(scope_id, name@),
                    self@.find_in(owned.take(j as int), name@) == self@.find_in(owned, name@),
                decreases j,
            {
                j -= 1;
                let candidate = scope.locals[j];
                proof {
                    let upto = owned.take(j + 1);
                    assert(upto.last() == candidate);
                    assert(upto.drop_last() =~= owned.take(j as int));
                    assert(owned[j as int] == self@.scopes[current.0 as int].locals[j as int]);
                }
                assert(self@.has_local(candidate));
                assert(self@.locals[candidate.0 as int].name == self.locals@[candidate.0 as int].name@);
                if str_equal(self.locals[candidate.0].name.as_str(), name) {
                    assert(self@.find_in(owned.take(j + 1), name@) == Some(candidate));
                    return Some(candidate);
                }
            }
            match scope.parent {
                Some(parent) => {
                    current = parent;
                },
                None => {
                    return None;
                },
            }
        }
    }

    /// The record of a local, if the local can be seen from the scope.
    pub fn resolve_local(&self, scope_id: ScopeId, local_id: LocalId) -> (found: Option<&Local>)
        requires
            self.wf(),
        ensures
            match found {
                Some(local) => self@.visible(scope_id, local_id) && local.id == local_id && local@
                    == self@.locals[local_id.0 as int],
                None => !self@.visible(scope_id, local_id),
            },
    {
        if local_id.0 < self.locals.len() && scope_id.0 < self.scopes.len()
            && self.is_local_within_scope(scope_id, local_id) {
            Some(&self.locals[local_id.0])
        } else {
            None
        }
    }

    /// The record of a scope, for writing. What the caller writes becomes part
    /// of the context as it is; the other records stay as they are.
    pub fn resolve_scope_mut(&mut self, scope_id: ScopeId) -> (scope: &mut Scope)
        requires
            old(self).wf(),
            old(self)@.has_scope(scope_id),
        ensures
            scope.id == scope_id,
            scope@ == old(self)@.scopes[scope_id.0 as int],
            final(self)@.scopes == old(self)@.scopes.update(scope_id.0 as int, final(scope)@),
            final(self)@.locals == old(self)@.locals,
            final(self)@.user_types == old(self)@.user_types,
    {
        &mut self.scopes[scope_id.0]
    }

    /// The record of a local, for writing, if the local can be seen from the
    /// scope. What the caller writes becomes part of the context as it is; the
    /// other records stay as they are.
    pub fn resolve_local_mut(&mut self, scope_id: ScopeId, local_id: LocalId) -> (found: Option<
        &mut Local,
    >)
        requires
            old(self).wf(),
        ensures
            match found {
                Some(local) => {
                    &&& old(self)@.visible(scope_id, local_id)
                    &&& local.id == local_id
                    &&& local@ == old(self)@.locals[local_id.0 as int]
                    &&& final(self)@.locals == old(self)@.locals.update(
                        local_id.0 as int,
                        final(local)@,
                    )
                    &&& final(self)@.scopes == old(self)@.scopes
                    &&& final(self)@.user_types == old(self)@.user_types
                    &&& final(local).id == local.id && final(local).scope_id == local.scope_id
                        ==> final(self).wf()
                },
                None => !old(self)@.visible(scope_id, local_id) && final(self)@ == old(self)@,
            },
    {
        if local_id.0 < self.locals.len() && scope_id.0 < self.scopes.len()
            && self.is_local_within_scope(scope_id, local_id) {
            Some(&mut self.locals[local_id.0])
        } else {
            None
        }
    }

    /// Sets the type of a local.
    pub fn set_local_type(&mut self, local_id: LocalId, initial_type: Option<TypeRef>)
        requires
            old(self).wf(),
            old(self)@.has_local(local_id),
        ensures
            final(self).wf(),
            final(self)@ == old(self)@.set_type(local_id, initial_type),
    {
        self.locals[local_id.0].initial_type = initial_type;
        proof {
            let after = old(self)@.set_type(local_id, initial_type);
            assert(self@.scopes =~= after.scopes);
            assert(self@.locals =~= after.locals);
        }
    }
}

/// What a result that holds a resolved expression stands for.
pub open spec fn expression_result_view(r: SemanticResult<RastExpressionCtx>) -> Result<
    RastExpressionCtx,
    SemanticFailure,
> {
    match r {
        Ok(expression) => Ok(expression),
        Err(e) => Err(e@),
    }
}

/// What a result that holds a resolved statement stands for.
pub open spec fn statement_result_view(r: SemanticResult<RastStatementCtx>) -> Result<
    RastStmtModel,
    SemanticFailure,
> {
    match r {
        Ok(statement) => Ok(statement@),
        Err(e) => Err(e@),
    }
}

/// Resolves the names of an expression in a scope. The context is only read.
pub fn transform_expression(
    ctx: &mut SemanticContext,
    scope_id: ScopeId,
    expression: &ExpressionCtx,
) -> (r: SemanticResult<RastExpressionCtx>)
    requires
        old(ctx).wf(),
    ensures
        final(ctx).wf(),
        final(ctx)@ == old(ctx)@,
        expression_result_view(r) == spec_transform_expression(old(ctx)@, scope_id, expression@),
    decreases expression,
{
    let pos = expression.0;
    match &expression.1 {
        Expression::IntegerConstant(x) => Ok(
            RastExpressionCtx(pos, RastExpression::IntegerConstant(*x)),
        ),
        Expression::Local(local) => match ctx.resolve_named_local(scope_id, local.as_str()) {
            Some(local_id) => Ok(RastExpressionCtx(pos, RastExpression::Local(local_id))),
            None => Err(SemanticErrorCtx(pos, SemanticError::UnknownLocal { name: local.clone() })),
        },
        Expression::UnaryOp(op, arg) => {
            let value = match transform_expression(ctx, scope_id, arg) {
                Ok(value) => value,
                Err(e) => {
                    return Err(e);
                },
            };
            Ok(RastExpressionCtx(pos, RastExpression::UnaryOp(*op, Box::new(value))))
        },
        Expression::BinaryOp(op, args) => {
            let lhs = match transform_expression(ctx, scope_id, &args.0) {
                Ok(lhs) => lhs,
                Err(e) => {
                    return Err(e);
                },
            };
            let rhs = match transform_expression(ctx, scope_id, &args.1) {
                Ok(rhs) => rhs,
                Err(e) => {
                    return Err(e);
                },
            };
            Ok(RastExpressionCtx(pos, RastExpression::BinaryOp(*op, Box::new((lhs, rhs)))))
        },
    }
}

/// Resolves one statement in a scope, declaring the scopes and locals that it
/// introduces. After a failure the context holds what was declared up to it.
pub fn transform_statement(
    ctx: &mut SemanticContext,
    scope_id: ScopeId,
    statement: &StatementCtx,
) -> (r: SemanticResult<RastStatementCtx>)
    requires
        old(ctx).wf(),
        old(ctx)@.has_scope(scope_id),
    ensures
        final(ctx).wf(),
        old(ctx)@.scopes.len() <= final(ctx)@.scopes.len(),
        old(ctx)@.locals.len() <= final(ctx)@.locals.len(),
        final(ctx)@ == spec_transform_statement(old(ctx)@, scope_id, statement@).ctx,
        statement_result_view(r) == spec_transform_statement(
            old(ctx)@,
            scope_id,
            statement@,
        ).result,
    decreases statement,
{
    let pos = statement.0;
    match &statement.1 {
        Statement::Block { inner } => {
            proof {
                lemma_block_view(*statement);
            }
            let ghost models = statements_view(inner@);
            let block_scope = ctx.declare_scope(Some(scope_id));
            let ghost goal = spec_transform_statements(ctx@, block_scope, models, 0);
            let mut resolved: Vec<RastStatementCtx> = Vec::new();
            let mut i: usize = 0;
            proof {
                let rest = spec_transform_statements(ctx@, block_scope, models, 0);
                assert(rast_statements_view(resolved@) =~= Seq::<RastStmtModel>::empty());
                if let Ok(more) = rest.result {
                    assert(rast_statements_view(resolved@) + more =~= more);
                }
            }
            while i < inner.len()
                invariant
                    ctx.wf(),
                    ctx@.has_scope(block_scope),
                    i <= inner.len(),
                    models == statements_view(inner@),
                    old(ctx)@.scopes.len() <= ctx@.scopes.len(),
                    old(ctx)@.locals.len() <= ctx@.locals.len(),
                    goal == followed_by(
                        rast_statements_view(resolved@),
                        spec_transform_statements(ctx@, block_scope, models, i as int),
                    ),
                    goal == spec_transform_statements(
                        old(ctx)@.declare_scope(Some(scope_id)),
                        block_scope,
                        models,
                        0,
                    ),
                    block_scope.0 == old(ctx)@.scopes.len(),
                    statement.1 == (Statement::Block { inner: *inner }),
                    statement@ == (StmtModel::Block { offset: statement.0, inner: models }),
                decreases inner.len() - i,
            {
                let ghost before = ctx@;
                let ghost done = rast_statements_view(resolved@);
                let next = match transform_statement(ctx, block_scope, &inner[i]) {
                    Ok(next) => next,
                    Err(e) => {
                        return Err(e);
                    },
                };
                proof {
                    let one = seq![next@];
                    let after = rast_statements_view(resolved@.push(next));
                    assert(after =~= done + one);
                    let rest = spec_transform_statements(ctx@, block_scope, models, i + 1);
                    assert(models[i as int] == inner@[i as int]@);
                    assert(spec_transform_statements(before, block_scope, models, i as int)
                        == followed_by(one, rest));
                    if let Ok(more) = rest.result {
                        assert(done + (one + more) =~= after + more);
                    }
                }
                resolved.push(next);
                i += 1;
            }
            let block = RastStatementCtx(
                pos,
                RastStatement::Block { scope_id: block_scope, inner: resolved },
            );
            proof {
                lemma_rast_block_view(block);
                assert(rast_statements_view(resolved@) + Seq::<RastStmtModel>::empty()
                    =~= rast_statements_view(resolved@));
            }
            Ok(block)
        },
        Statement::AssignLocal { local, value } => {
            match ctx.resolve_named_local(scope_id, local.1.as_str()) {
                Some(local_id) => {
                    let value = match transform_expression(ctx, scope_id, value) {
                        Ok(value) => value,
                        Err(e) => {
                            return Err(e);
                        },
                    };
                    Ok(RastStatementCtx(local.0, RastStatement::AssignLocal { local_id, value }))
                },
                None => Err(
                    SemanticErrorCtx(local.0, SemanticError::UnknownLocal { name: local.1.clone() }),
                ),
            }
        },
        Statement::DeclareVariable { name, initial_type, initial_value, is_mutable } => {
            let declared = match initial_type {
                Some(annotation) => match ctx.resolve_named_type(annotation) {
                    Ok(named) => Some(named),
                    Err(e) => {
                        return Err(e);
                    },
                },
                None => None,
            };
            let value = match transform_expression(ctx, scope_id, initial_value) {
                Ok(value) => value,
                Err(e) => {
                    return Err(e);
                },
            };
            let local_id = ctx.declare_local(scope_id, name.1.clone(), declared);
            Ok(RastStatementCtx(pos, RastStatement::AssignLocal { local_id, value }))
        },
    }
}

/// Resolves a program in a context of its own, and returns that context with
/// the resolved program.
pub fn transform_program(program: Program) -> (r: SemanticResult<(SemanticContext, RastProgram)>)
    ensures
        match r {
            Ok((ctx, resolved)) => ctx.wf() && ctx@ == spec_transform_program(program@).ctx
                && spec_transform_program(program@).result == Ok::<_, SemanticFailure>(resolved@),
            Err(e) => spec_transform_program(program@).result == Err::<Seq<RastStmtModel>, _>(e@),
        },
{
    let mut ctx = SemanticContext::new();
    let root_scope = ctx.declare_scope(None);
    let statements = program.0;
    let ghost models = statements_view(statements@);
    let ghost goal = spec_transform_statements(ctx@, root_scope, models, 0);

    let mut transformed_statements: Vec<RastStatementCtx> = Vec::new();
    let mut i: usize = 0;
    proof {
        assert(rast_statements_view(transformed_statements@) =~= Seq::<RastStmtModel>::empty());
        if let Ok(more) = goal.result {
            assert(rast_statements_view(transformed_statements@) + more =~= more);
        }
    }
    while i < statements.len()
        invariant
            ctx.wf(),
            ctx@.has_scope(root_scope),
            i <= statements.len(),
            models == statements_view(statements@),
            goal == spec_transform_program(program@),
            goal == followed_by(
                rast_statements_view(transformed_statements@),
                spec_transform_statements(ctx@, root_scope, models, i as int),
            ),
        decreases statements.len() - i,
    {
        let ghost before = ctx@;
        let ghost done = rast_statements_view(transformed_statements@);
        let next = match transform_statement(&mut ctx, root_scope, &statements[i]) {
            Ok(next) => next,
            Err(e) => {
                return Err(e);
            },
        };
        proof {
            let one = seq![next@];
            let after = rast_statements_view(transformed_statements@.push(next));
            assert(after =~= done + one);
            let rest = spec_transform_statements(ctx@, root_scope, models, i + 1);
            assert(models[i as int] == statements@[i as int]@);
            assert(spec_transform_statements(before, root_scope, models, i as int) == followed_by(
                one,
                rest,
            ));
            if let Ok(more) = rest.result {
                assert(done + (one + more) =~= after + more);
            }
        }
        transformed_statements.push(next);
        i += 1;
    }
    proof {
        assert(rast_statements_view(transformed_statements@) + Seq::<RastStmtModel>::empty()
            =~= rast_statements_view(transformed_statements@));
    }
    Ok((ctx, RastProgram(transformed_statements)))
}

} // verus!
