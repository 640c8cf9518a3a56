//! What the phases guarantee to each other: a name never resolves to a local
//! of a scope that does not enclose it, a resolved program assigns every local
//! before it reads it, and a program that passes the type checker can be
//! executed to the end.

use vstd::prelude::*;

use crate::ast::{ExprModel, StmtModel};
use crate::interpreter::{
    spec_evaluate, spec_execute, spec_execute_all, Environment, Value,
};
use crate::rast::{
    LocalId, PrimitiveType, RastExpression, RastExpressionCtx, RastStmtModel, ScopeId, TypeRef,
};
use crate::semantic::{
    spec_transform_expression, spec_transform_program, spec_transform_statement,
    spec_transform_statements, ContextModel,
};
use crate::type_checker::{
    spec_resolve_expression, spec_visit_program, spec_visit_statement, spec_visit_statements,
    TypeErrorCtx,
};

verus! {

/// A scope encloses only scopes that were created after it, and itself.
pub proof fn lemma_enclosing_scope_is_older(ctx: ContextModel, ancestor: ScopeId, scope: ScopeId)
    requires
        ctx.encloses(ancestor, scope),
    ensures
        ancestor.0 <= scope.0,
        ctx.has_scope(ancestor),
    decreases scope.0,
{
    if ancestor != scope {
        lemma_enclosing_scope_is_older(ctx, ancestor, ctx.scopes[scope.0 as int].parent->0);
    }
}

/// The local found among those that a scope owns is one of them.
pub proof fn lemma_find_in_is_member(ctx: ContextModel, owned: Seq<LocalId>, name: Seq<char>)
    ensures
        ctx.find_in(owned, name) matches Some(local) ==> owned.contains(local) && ctx.has_local(
            local,
        ) && ctx.locals[local.0 as int].name == name,
    decreases owned.len(),
{
    if owned.len() > 0 {
        if ctx.has_local(owned.last()) && ctx.locals[owned.last().0 as int].name == name {
            assert(owned[owned.len() - 1] == owned.last());
        } else {
            lemma_find_in_is_member(ctx, owned.drop_last(), name);
            if let Some(local) = ctx.find_in(owned.drop_last(), name) {
                let i = choose|i: int|
                    0 <= i < owned.drop_last().len() && owned.drop_last()[i] == local;
                assert(owned[i] == local);
            }
        }
    }
}

/// The local that a name refers to in a scope has that name and can be seen
/// from the scope.
pub proof fn lemma_lookup_is_visible(ctx: ContextModel, scope: ScopeId, name: Seq<char>)
    requires
        ctx.wf(),
    ensures
        ctx.lookup(scope, name) matches Some(local) ==> ctx.visible(scope, local)
            && ctx.locals[local.0 as int].name == name,
    decreases scope.0,
{
    if ctx.has_scope(scope) {
        let owned = ctx.scopes[scope.0 as int].locals;
        lemma_find_in_is_member(ctx, owned, name);
        match ctx.find_in(owned, name) {
            Some(local) => {
                let j = choose|j: int| 0 <= j < owned.len() && owned[j] == local;
                assert(ctx.scopes[scope.0 as int].locals[j] == local);
                assert(ctx.locals[local.0 as int].scope_id == scope);
            },
            None => {
                if let Some(p) = ctx.scopes[scope.0 as int].parent {
                    lemma_lookup_is_visible(ctx, p, name);
                }
            },
        }
    }
}

/// Scoping. A local cannot be referred to by name from a scope that its own
/// scope does not enclose: whatever the name, lookup from there gives another
/// local or none. So the locals of a block cannot be resolved outside it.
pub proof fn lemma_local_is_hidden_outside_its_scope(
    ctx: ContextModel,
    from: ScopeId,
    name: Seq<char>,
    local: LocalId,
)
    requires
        ctx.wf(),
        ctx.has_local(local),
        !ctx.encloses(ctx.locals[local.0 as int].scope_id, from),
    ensures
        ctx.lookup(from, name) != Some(local),
{
    lemma_lookup_is_visible(ctx, from, name);
}

/// Scoping, for blocks. A block's scope is created after the scope around it,
/// so it does not enclose that scope, and a local of the block cannot be
/// resolved from there.
pub proof fn lemma_block_local_is_hidden_outside(
    ctx: ContextModel,
    outer: ScopeId,
    block: ScopeId,
    name: Seq<char>,
    local: LocalId,
)
    requires
        ctx.wf(),
        ctx.has_local(local),
        ctx.locals[local.0 as int].scope_id == block,
        outer.0 < block.0,
    ensures
        ctx.lookup(outer, name) != Some(local),
{
    if ctx.encloses(block, outer) {
        lemma_enclosing_scope_is_older(ctx, block, outer);
    }
    lemma_local_is_hidden_outside_its_scope(ctx, outer, name, local);
}

/// Whether a context has grown out of another: it has the scopes and locals
/// of the other, with the same parents and in the same scopes, and more.
pub open spec fn extends(after: ContextModel, before: ContextModel) -> bool {
    &&& before.scopes.len() <= after.scopes.len()
    &&& before.locals.len() <= after.locals.len()
    &&& forall|s: int|
        0 <= s < before.scopes.len() ==> (#[trigger] after.scopes[s]).parent
            == before.scopes[s].parent
    &&& forall|l: int|
        0 <= l < before.locals.len() ==> (#[trigger] after.locals[l]).scope_id
            == before.locals[l].scope_id
}

/// What a scope encloses, it encloses for good.
pub proof fn lemma_growth_keeps_enclosing(
    before: ContextModel,
    after: ContextModel,
    ancestor: ScopeId,
    scope: ScopeId,
)
    requires
        extends(after, before),
        before.encloses(ancestor, scope),
    ensures
        after.encloses(ancestor, scope),
    decreases scope.0,
{
    assert(after.scopes[scope.0 as int].parent == before.scopes[scope.0 as int].parent);
    if ancestor != scope {
        lemma_growth_keeps_enclosing(
            before,
            after,
            ancestor,
            before.scopes[scope.0 as int].parent->0,
        );
    }
}

/// A local that can be seen from a scope can be seen from it for good.
pub proof fn lemma_growth_keeps_visible(
    before: ContextModel,
    after: ContextModel,
    scope: ScopeId,
    local: LocalId,
)
    requires
        extends(after, before),
        before.visible(scope, local),
    ensures
        after.visible(scope, local),
{
    assert(after.locals[local.0 as int].scope_id == before.locals[local.0 as int].scope_id);
    lemma_growth_keeps_enclosing(before, after, before.locals[local.0 as int].scope_id, scope);
}

/// Whether every local that an expression reads can be seen from the scope.
pub open spec fn reads_visible(ctx: ContextModel, scope: ScopeId, expression: RastExpression) -> bool
    decreases expression,
{
    match expression {
        RastExpression::IntegerConstant(_) => true,
        RastExpression::Local(local_id) => ctx.visible(scope, local_id),
        RastExpression::UnaryOp(_, arg) => reads_visible(ctx, scope, arg.1),
        RastExpression::BinaryOp(_, args) => reads_visible(ctx, scope, args.0.1) && reads_visible(
            ctx,
            scope,
            args.1.1,
        ),
    }
}

/// Whether a resolved statement is well-scoped: every local that it reads or
/// assigns was declared in the scope the statement stands in or in one that
/// encloses it, and a block has a scope of its own, directly below that one.
pub open spec fn is_well_scoped(ctx: ContextModel, scope: ScopeId, statement: RastStmtModel) -> bool
    decreases statement,
{
    match statement {
        RastStmtModel::AssignLocal { offset, local_id, value } => ctx.visible(scope, local_id)
            && reads_visible(ctx, scope, value.1),
        RastStmtModel::Block { offset, scope_id, inner } => {
            &&& ctx.has_scope(scope_id)
            &&& ctx.scopes[scope_id.0 as int].parent == Some(scope)
            &&& forall|i: int|
                0 <= i < inner.len() ==> is_well_scoped(ctx, scope_id, #[trigger] inner[i])
        },
    }
}

/// Whether all of a sequence of resolved statements are well-scoped.
pub open spec fn all_well_scoped(
    ctx: ContextModel,
    scope: ScopeId,
    statements: Seq<RastStmtModel>,
) -> bool {
    forall|i: int| 0 <= i < statements.len() ==> is_well_scoped(ctx, scope, #[trigger] statements[i])
}

/// An expression whose reads can be seen stays so as the context grows.
pub proof fn lemma_growth_keeps_reads_visible(
    before: ContextModel,
    after: ContextModel,
    scope: ScopeId,
    expression: RastExpression,
)
    requires
        extends(after, before),
        reads_visible(before, scope, expression),
    ensures
        reads_visible(after, scope, expression),
    decreases expression,
{
    match expression {
        RastExpression::IntegerConstant(_) => {},
        RastExpression::Local(local_id) => {
            lemma_growth_keeps_visible(before, after, scope, local_id);
        },
        RastExpression::UnaryOp(_, arg) => {
            lemma_growth_keeps_reads_visible(before, after, scope, arg.1);
        },
        RastExpression::BinaryOp(_, args) => {
            lemma_growth_keeps_reads_visible(before, after, scope, args.0.1);
            lemma_growth_keeps_reads_visible(before, after, scope, args.1.1);
        },
    }
}

/// A well-scoped statement stays well-scoped as the context grows.
pub proof fn lemma_growth_keeps_well_scoped(
    before: ContextModel,
    after: ContextModel,
    scope: ScopeId,
    statement: RastStmtModel,
)
    requires
        extends(after, before),
        is_well_scoped(before, scope, statement),
    ensures
        is_well_scoped(after, scope, statement),
    decreases statement,
{
    match statement {
        RastStmtModel::AssignLocal { offset, local_id, value } => {
            lemma_growth_keeps_visible(before, after, scope, local_id);
            lemma_growth_keeps_reads_visible(before, after, scope, value.1);
        },
        RastStmtModel::Block { offset, scope_id, inner } => {
            assert(after.scopes[scope_id.0 as int].parent == before.scopes[scope_id.0 as int].parent);
            assert forall|i: int| 0 <= i < inner.len() implies is_well_scoped(
                after,
                scope_id,
                #[trigger] inner[i],
            ) by {
                lemma_growth_keeps_well_scoped(before, after, scope_id, inner[i]);
            }
        },
    }
}

/// A resolved expression reads only locals that can be seen from its scope.
pub proof fn lemma_resolved_expression_is_well_scoped(
    ctx: ContextModel,
    scope: ScopeId,
    expression: ExprModel,
)
    requires
        ctx.wf(),
    ensures
        spec_transform_expression(ctx, scope, expression) matches Ok(resolved) ==> reads_visible(
            ctx,
            scope,
            resolved.1,
        ),
    decreases expression,
{
    match expression {
        ExprModel::IntegerConstant(_, _) => {},
        ExprModel::Local(_, name) => {
            lemma_lookup_is_visible(ctx, scope, name);
        },
        ExprModel::UnaryOp(_, _, arg) => {
            lemma_resolved_expression_is_well_scoped(ctx, scope, *arg);
        },
        ExprModel::BinaryOp(_, _, lhs, rhs) => {
            lemma_resolved_expression_is_well_scoped(ctx, scope, *lhs);
            lemma_resolved_expression_is_well_scoped(ctx, scope, *rhs);
        },
    }
}

/// Creating a scope below one that exists keeps the context consistent.
pub proof fn lemma_declare_scope_grows(ctx: ContextModel, parent: Option<ScopeId>)
    requires
        ctx.wf(),
        parent matches Some(p) ==> ctx.has_scope(p),
    ensures
        ctx.declare_scope(parent).wf(),
        extends(ctx.declare_scope(parent), ctx),
{
    let after = ctx.declare_scope(parent);
    assert forall|s: int, j: int|
        0 <= s < after.scopes.len() && 0 <= j < after.scopes[s].locals.len() implies {
        let l = #[trigger] after.scopes[s].locals[j];
        l.0 < after.locals.len() && after.locals[l.0 as int].scope_id.0 == s
    } by {
        assert(after.scopes[s].locals[j] == ctx.scopes[s].locals[j]);
    }
}

/// Declaring a local in a scope that exists keeps the context consistent.
pub proof fn lemma_declare_local_grows(
    ctx: ContextModel,
    scope: ScopeId,
    name: Seq<char>,
    initial_type: Option<TypeRef>,
)
    requires
        ctx.wf(),
        ctx.has_scope(scope),
        ctx.locals.len() <= usize::MAX,
    ensures
        ctx.declare_local(scope, name, initial_type).wf(),
        extends(ctx.declare_local(scope, name, initial_type), ctx),
        ctx.declare_local(scope, name, initial_type).visible(
            scope,
            LocalId(ctx.locals.len() as usize),
        ),
{
    let after = ctx.declare_local(scope, name, initial_type);
    let id = LocalId(ctx.locals.len() as usize);
    assert forall|s: int, j: int|
        0 <= s < after.scopes.len() && 0 <= j < after.scopes[s].locals.len() implies {
        let l = #[trigger] after.scopes[s].locals[j];
        l.0 < after.locals.len() && after.locals[l.0 as int].scope_id.0 == s
    } by {
        if s == scope.0 && j == ctx.scopes[s].locals.len() {
            assert(after.scopes[s].locals[j] == id);
        } else {
            assert(after.scopes[s].locals[j] == ctx.scopes[s].locals[j]);
        }
    }
    assert forall|s: int| 0 <= s < after.scopes.len() implies match (#[trigger] after.scopes[s]).parent {
        Some(p) => p.0 < s,
        None => true,
    } by {
        assert(after.scopes[s].parent == ctx.scopes[s].parent);
    }
}

/// Growth goes on: what has grown out of a context that has grown out of
/// another has grown out of that one.
pub proof fn lemma_growth_is_transitive(a: ContextModel, b: ContextModel, c: ContextModel)
    requires
        extends(b, a),
        extends(c, b),
    ensures
        extends(c, a),
{
    assert forall|s: int| 0 <= s < a.scopes.len() implies (#[trigger] c.scopes[s]).parent
        == a.scopes[s].parent by {
        assert(b.scopes[s].parent == a.scopes[s].parent);
    }
    assert forall|l: int| 0 <= l < a.locals.len() implies (#[trigger] c.locals[l]).scope_id
        == a.locals[l].scope_id by {
        assert(b.locals[l].scope_id == a.locals[l].scope_id);
    }
}

/// Resolution leaves a consistent context that has grown out of the one it
/// started from, and a resolved statement is well-scoped in it.
pub proof fn lemma_resolved_statement_is_well_scoped(
    ctx: ContextModel,
    scope: ScopeId,
    statement: StmtModel,
)
    requires
        ctx.wf(),
        ctx.has_scope(scope),
        spec_transform_statement(ctx, scope, statement).ctx.locals.len() <= usize::MAX,
        spec_transform_statement(ctx, scope, statement).ctx.scopes.len() <= usize::MAX,
    ensures
        spec_transform_statement(ctx, scope, statement).ctx.wf(),
        extends(spec_transform_statement(ctx, scope, statement).ctx, ctx),
        spec_transform_statement(ctx, scope, statement).result matches Ok(resolved)
            ==> is_well_scoped(
            spec_transform_statement(ctx, scope, statement).ctx,
            scope,
            resolved,
        ),
    decreases statement, 0int,
{
    let after = spec_transform_statement(ctx, scope, statement).ctx;
    match statement {
        StmtModel::Block { offset, inner } => {
            let scope_id = ScopeId(ctx.scopes.len() as usize);
            let opened = ctx.declare_scope(Some(scope));
            lemma_declare_scope_grows(ctx, Some(scope));
            lemma_resolved_statements_grow(opened, scope_id, inner, 0);
            assert(ctx.scopes.len() <= usize::MAX);
            lemma_resolved_statements_are_well_scoped(opened, scope_id, inner, 0);
            lemma_growth_is_transitive(ctx, opened, after);
            assert(after.scopes[scope_id.0 as int].parent == opened.scopes[scope_id.0 as int].parent);
        },
        StmtModel::AssignLocal { offset, local, value } => {
            lemma_lookup_is_visible(ctx, scope, local.name);
            lemma_resolved_expression_is_well_scoped(ctx, scope, value);
        },
        StmtModel::DeclareVariable { offset, name, is_mutable, initial_type, initial_value } => {
            lemma_resolved_expression_is_well_scoped(ctx, scope, initial_value);
            if spec_transform_statement(ctx, scope, statement).result is Ok {
                lemma_declare_local_grows(
                    ctx,
                    scope,
                    name.name,
                    crate::semantic::spec_annotated_type(initial_type)->Ok_0,
                );
                lemma_growth_keeps_reads_visible(
                    ctx,
                    after,
                    scope,
                    spec_transform_expression(ctx, scope, initial_value)->Ok_0.1,
                );
            }
        },
    }
}

/// Resolution only adds scopes and locals.
pub proof fn lemma_resolved_statements_grow(
    ctx: ContextModel,
    scope: ScopeId,
    statements: Seq<StmtModel>,
    from: int,
)
    ensures
        ctx.scopes.len() <= spec_transform_statements(ctx, scope, statements, from).ctx.scopes.len(),
        ctx.locals.len() <= spec_transform_statements(ctx, scope, statements, from).ctx.locals.len(),
    decreases statements, statements.len() - from,
{
    if 0 <= from < statements.len() {
        let first = spec_transform_statement(ctx, scope, statements[from]);
        lemma_resolved_statement_grows(ctx, scope, statements[from]);
        if first.result is Ok {
            lemma_resolved_statements_grow(first.ctx, scope, statements, from + 1);
        }
    }
}

/// Resolution only adds scopes and locals.
pub proof fn lemma_resolved_statement_grows(ctx: ContextModel, scope: ScopeId, statement: StmtModel)
    ensures
        ctx.scopes.len() <= spec_transform_statement(ctx, scope, statement).ctx.scopes.len(),
        ctx.locals.len() <= spec_transform_statement(ctx, scope, statement).ctx.locals.len(),
    decreases statement, 0int,
{
    match statement {
        StmtModel::Block { offset, inner } => {
            let opened = ctx.declare_scope(Some(scope));
            assert(opened.scopes.len() == ctx.scopes.len() + 1);
            assert(opened.locals == ctx.locals);
            lemma_resolved_statements_grow(
                opened,
                ScopeId(ctx.scopes.len() as usize),
                inner,
                0,
            );
        },
        StmtModel::AssignLocal { offset, local, value } => {},
        StmtModel::DeclareVariable { offset, name, is_mutable, initial_type, initial_value } => {
            let declared = ctx.declare_local(scope, name.name, None);
            assert(declared.scopes.len() == ctx.scopes.len());
        },
    }
}

/// The same as `lemma_resolved_statement_is_well_scoped` for the statements
/// from index `from` on.
pub proof fn lemma_resolved_statements_are_well_scoped(
    ctx: ContextModel,
    scope: ScopeId,
    statements: Seq<StmtModel>,
    from: int,
)
    requires
        ctx.wf(),
        ctx.has_scope(scope),
        spec_transform_statements(ctx, scope, statements, from).ctx.locals.len() <= usize::MAX,
        spec_transform_statements(ctx, scope, statements, from).ctx.scopes.len() <= usize::MAX,
    ensures
        spec_transform_statements(ctx, scope, statements, from).ctx.wf(),
        extends(spec_transform_statements(ctx, scope, statements, from).ctx, ctx),
        spec_transform_statements(ctx, scope, statements, from).result matches Ok(resolved)
            ==> all_well_scoped(
            spec_transform_statements(ctx, scope, statements, from).ctx,
            scope,
            resolved,
        ),
    decreases statements, statements.len() - from,
{
    if 0 <= from < statements.len() {
        let first = spec_transform_statement(ctx, scope, statements[from]);
        let all = spec_transform_statements(ctx, scope, statements, from);
        if first.result is Ok {
            lemma_resolved_statements_grow(first.ctx, scope, statements, from + 1);
        }
        lemma_resolved_statement_is_well_scoped(ctx, scope, statements[from]);
        if let Ok(statement) = first.result {
            let rest = spec_transform_statements(first.ctx, scope, statements, from + 1);
            lemma_resolved_statements_are_well_scoped(first.ctx, scope, statements, from + 1);
            lemma_growth_is_transitive(ctx, first.ctx, rest.ctx);
            if let Ok(more) = rest.result {
                let resolved = seq![statement] + more;
                lemma_growth_keeps_well_scoped(first.ctx, rest.ctx, scope, statement);
                assert forall|i: int| 0 <= i < resolved.len() implies is_well_scoped(
                    rest.ctx,
                    scope,
                    #[trigger] resolved[i],
                ) by {
                    if i > 0 {
                        assert(resolved[i] == more[i - 1]);
                    }
                }
            }
        }
    }
}

/// No ill-scoped program leaves resolution: every statement of a resolved
/// program is well-scoped in the root scope of the context that resolution
/// leaves, and that context is consistent.
pub proof fn lemma_resolved_program_is_well_scoped(program: Seq<StmtModel>)
    requires
        spec_transform_program(program).ctx.locals.len() <= usize::MAX,
        spec_transform_program(program).ctx.scopes.len() <= usize::MAX,
    ensures
        spec_transform_program(program).ctx.wf(),
        spec_transform_program(program).result matches Ok(resolved) ==> all_well_scoped(
            spec_transform_program(program).ctx,
            ScopeId(0),
            resolved,
        ),
{
    let start = ContextModel::empty().declare_scope(None);
    lemma_resolved_statements_are_well_scoped(start, ScopeId(0), program, 0);
}

/// Whether every local that an expression reads has an id below `n`.
pub open spec fn reads_below(expression: RastExpression, n: nat) -> bool
    decreases expression,
{
    match expression {
        RastExpression::IntegerConstant(_) => true,
        RastExpression::Local(local_id) => local_id.0 < n,
        RastExpression::UnaryOp(_, arg) => reads_below(arg.1, n),
        RastExpression::BinaryOp(_, args) => reads_below(args.0.1, n) && reads_below(args.1.1, n),
    }
}

/// Whether a statement, executed when exactly the locals with an id below `n`
/// have a value, reads only locals that have one and assigns the locals in
/// the order of their ids; if so, the number of locals that have a value
/// afterwards.
pub open spec fn assigns_in_order(statement: RastStmtModel, n: nat) -> Option<nat>
    decreases statement, 0int,
{
    match statement {
        RastStmtModel::AssignLocal { offset, local_id, value } => if reads_below(value.1, n)
            && local_id.0 <= n {
            Some(
                if local_id.0 == n {
                    n + 1
                } else {
                    n
                },
            )
        } else {
            None
        },
        RastStmtModel::Block { offset, scope_id, inner } => all_assign_in_order(inner, 0, n),
    }
}

/// The same for the statements from index `from` on, one after the other.
pub open spec fn all_assign_in_order(statements: Seq<RastStmtModel>, from: int, n: nat) -> Option<
    nat,
>
    decreases statements, statements.len() - from,
{
    if 0 <= from < statements.len() {
        match assigns_in_order(statements[from], n) {
            Some(next) => all_assign_in_order(statements, from + 1, next),
            None => None,
        }
    } else {
        Some(n)
    }
}

/// A resolved expression reads only locals that exist in the context it was
/// resolved in.
pub proof fn lemma_resolved_expression_reads_declared(
    ctx: ContextModel,
    scope: ScopeId,
    expression: ExprModel,
)
    ensures
        spec_transform_expression(ctx, scope, expression) matches Ok(resolved) ==> reads_below(
            resolved.1,
            ctx.locals.len(),
        ),
    decreases expression,
{
    match expression {
        ExprModel::IntegerConstant(_, _) => {},
        ExprModel::Local(_, name) => {
            lemma_lookup_exists(ctx, scope, name);
        },
        ExprModel::UnaryOp(_, _, arg) => {
            lemma_resolved_expression_reads_declared(ctx, scope, *arg);
        },
        ExprModel::BinaryOp(_, _, lhs, rhs) => {
            lemma_resolved_expression_reads_declared(ctx, scope, *lhs);
            lemma_resolved_expression_reads_declared(ctx, scope, *rhs);
        },
    }
}

/// The local that a name refers to exists.
pub proof fn lemma_lookup_exists(ctx: ContextModel, scope: ScopeId, name: Seq<char>)
    ensures
        ctx.lookup(scope, name) matches Some(local) ==> ctx.has_local(local),
    decreases scope.0,
{
    if ctx.has_scope(scope) {
        lemma_find_in_is_member(ctx, ctx.scopes[scope.0 as int].locals, name);
        if ctx.find_in(ctx.scopes[scope.0 as int].locals, name) is None {
            if let Some(p) = ctx.scopes[scope.0 as int].parent {
                if p.0 < scope.0 {
                    lemma_lookup_exists(ctx, p, name);
                }
            }
        }
    }
}

/// Resolution only adds locals, and a resolved statement assigns every local
/// before it is read: the locals of the context it started from are those
/// that have a value before it, the locals of the context it leaves are those
/// that have one after it.
pub proof fn lemma_resolved_statement_assigns_in_order(
    ctx: ContextModel,
    scope: ScopeId,
    statement: StmtModel,
)
    requires
        spec_transform_statement(ctx, scope, statement).ctx.locals.len() <= usize::MAX,
    ensures
        ctx.locals.len() <= spec_transform_statement(ctx, scope, statement).ctx.locals.len(),
        spec_transform_statement(ctx, scope, statement).result matches Ok(resolved)
            ==> assigns_in_order(resolved, ctx.locals.len()) == Some(
            spec_transform_statement(ctx, scope, statement).ctx.locals.len(),
        ),
    decreases statement, 0int,
{
    match statement {
        StmtModel::Block { offset, inner } => {
            let scope_id = ScopeId(ctx.scopes.len() as usize);
            lemma_resolved_statements_assign_in_order(
                ctx.declare_scope(Some(scope)),
                scope_id,
                inner,
                0,
            );
        },
        StmtModel::AssignLocal { offset, local, value } => {
            lemma_lookup_exists(ctx, scope, local.name);
            lemma_resolved_expression_reads_declared(ctx, scope, value);
        },
        StmtModel::DeclareVariable { offset, name, is_mutable, initial_type, initial_value } => {
            lemma_resolved_expression_reads_declared(ctx, scope, initial_value);
        },
    }
}

/// The same for the statements from index `from` on.
pub proof fn lemma_resolved_statements_assign_in_order(
    ctx: ContextModel,
    scope: ScopeId,
    statements: Seq<StmtModel>,
    from: int,
)
    requires
        spec_transform_statements(ctx, scope, statements, from).ctx.locals.len() <= usize::MAX,
    ensures
        ctx.locals.len() <= spec_transform_statements(ctx, scope, statements, from).ctx.locals.len(),
        spec_transform_statements(ctx, scope, statements, from).result matches Ok(resolved)
            ==> all_assign_in_order(resolved, 0, ctx.locals.len()) == Some(
            spec_transform_statements(ctx, scope, statements, from).ctx.locals.len(),
        ),
    decreases statements, statements.len() - from,
{
    if 0 <= from < statements.len() {
        let first = spec_transform_statement(ctx, scope, statements[from]);
        match first.result {
            Ok(statement) => {
                let rest = spec_transform_statements(first.ctx, scope, statements, from + 1);
                lemma_resolved_statements_assign_in_order(first.ctx, scope, statements, from + 1);
                lemma_resolved_statement_assigns_in_order(ctx, scope, statements[from]);
                if let Ok(more) = rest.result {
                    lemma_assign_in_order_prepend(
                        statement,
                        more,
                        ctx.locals.len(),
                    );
                }
            },
            Err(_) => {
                lemma_resolved_statement_assigns_in_order(ctx, scope, statements[from]);
            },
        }
    }
}

/// Statements that assign in order, after one that does, assign in order
/// together with it.
pub proof fn lemma_assign_in_order_prepend(first: RastStmtModel, more: Seq<RastStmtModel>, n: nat)
    requires
        assigns_in_order(first, n) is Some,
    ensures
        all_assign_in_order(seq![first] + more, 0, n) == all_assign_in_order(
            more,
            0,
            assigns_in_order(first, n)->0,
        ),
{
    let all = seq![first] + more;
    assert(all[0] == first);
    lemma_assign_in_order_shift(first, more, 0, assigns_in_order(first, n)->0);
}

/// Whether statements assign in order from an index on does not depend on a
/// statement put in front of them.
pub proof fn lemma_assign_in_order_shift(
    first: RastStmtModel,
    more: Seq<RastStmtModel>,
    i: int,
    n: nat,
)
    requires
        0 <= i <= more.len(),
    ensures
        all_assign_in_order(seq![first] + more, i + 1, n) == all_assign_in_order(more, i, n),
    decreases more.len() - i,
{
    let all = seq![first] + more;
    if i < more.len() {
        assert(all[i + 1] == more[i]);
        match assigns_in_order(more[i], n) {
            Some(next) => {
                lemma_assign_in_order_shift(first, more, i + 1, next);
            },
            None => {},
        }
    }
}

/// Whether a context differs from an earlier one at most in the types of
/// locals that had none: every local is in the scope and has the name it had,
/// and a type that was fixed is the type it was.
pub open spec fn only_fixes_types(after: ContextModel, before: ContextModel) -> bool {
    &&& after.scopes == before.scopes
    &&& after.user_types == before.user_types
    &&& after.locals.len() == before.locals.len()
    &&& forall|l: int|
        0 <= l < before.locals.len() ==> {
            &&& (#[trigger] after.locals[l]).scope_id == before.locals[l].scope_id
            &&& after.locals[l].name == before.locals[l].name
            &&& before.locals[l].initial_type is Some ==> after.locals[l].initial_type
                == before.locals[l].initial_type
        }
}

/// Type fixation. Checking a statement changes nothing but the types of
/// locals that had none: the type of a local is fixed by its first assignment
/// or by its annotation, and stays what it is.
pub proof fn lemma_checking_only_fixes_types(
    ctx: ContextModel,
    scope: ScopeId,
    statement: RastStmtModel,
)
    ensures
        only_fixes_types(spec_visit_statement(ctx, scope, statement).ctx, ctx),
    decreases statement, 0int,
{
    match statement {
        RastStmtModel::AssignLocal { offset, local_id, value } => {},
        RastStmtModel::Block { offset, scope_id, inner } => {
            lemma_checking_all_only_fixes_types(ctx, scope_id, inner, 0);
        },
    }
}

/// The same for the statements from index `from` on.
pub proof fn lemma_checking_all_only_fixes_types(
    ctx: ContextModel,
    scope: ScopeId,
    statements: Seq<RastStmtModel>,
    from: int,
)
    ensures
        only_fixes_types(spec_visit_statements(ctx, scope, statements, from).ctx, ctx),
    decreases statements, statements.len() - from,
{
    if 0 <= from < statements.len() {
        let first = spec_visit_statement(ctx, scope, statements[from]);
        lemma_checking_only_fixes_types(ctx, scope, statements[from]);
        if first.result is Ok {
            let after = spec_visit_statements(first.ctx, scope, statements, from + 1).ctx;
            lemma_checking_all_only_fixes_types(first.ctx, scope, statements, from + 1);
            assert forall|l: int| 0 <= l < ctx.locals.len() implies {
                &&& (#[trigger] after.locals[l]).scope_id == ctx.locals[l].scope_id
                &&& after.locals[l].name == ctx.locals[l].name
                &&& ctx.locals[l].initial_type is Some ==> after.locals[l].initial_type
                    == ctx.locals[l].initial_type
            } by {
                assert(first.ctx.locals[l].scope_id == ctx.locals[l].scope_id);
            }
        }
    }
}

/// Type fixation, for one assignment. An assignment to a local whose type is
/// fixed passes only if the value has that type.
pub proof fn lemma_later_assignment_has_the_fixed_type(
    ctx: ContextModel,
    scope: ScopeId,
    offset: usize,
    local_id: LocalId,
    value: RastExpressionCtx,
)
    requires
        ctx.visible(scope, local_id),
        ctx.locals[local_id.0 as int].initial_type is Some,
        spec_visit_statement(
            ctx,
            scope,
            RastStmtModel::AssignLocal { offset, local_id, value },
        ).result is Ok,
    ensures
        spec_resolve_expression(ctx, scope, value) == Ok::<TypeRef, TypeErrorCtx>(
            ctx.locals[local_id.0 as int].initial_type->0,
        ),
        ctx.locals[local_id.0 as int].initial_type->0 is Primitive,
{
}

/// Whether a result of the type checker is the error for a local without a
/// type.
pub open spec fn is_untyped_local<T>(result: Result<T, TypeErrorCtx>) -> bool {
    result matches Err(e) && e.1 is UntypedLocal
}

/// Whether the locals with an id below `n` exist and have a type.
pub open spec fn all_typed_below(ctx: ContextModel, n: nat) -> bool {
    forall|l: int| 0 <= l < n ==> l < ctx.locals.len() && (#[trigger] ctx.locals[l]).initial_type is Some
}

/// What can be seen from where depends on the scopes and on the scope of
/// each local alone.
pub proof fn lemma_fixing_types_keeps_visible(
    before: ContextModel,
    after: ContextModel,
    scope: ScopeId,
    local: LocalId,
)
    requires
        only_fixes_types(after, before),
    ensures
        after.visible(scope, local) == before.visible(scope, local),
{
    if before.has_local(local) {
        assert(after.locals[local.0 as int].scope_id == before.locals[local.0 as int].scope_id);
        lemma_same_scopes_enclose_the_same(
            before,
            after,
            before.locals[local.0 as int].scope_id,
            scope,
        );
    }
}

/// Which scope encloses which depends on the scopes alone.
pub proof fn lemma_same_scopes_enclose_the_same(
    before: ContextModel,
    after: ContextModel,
    ancestor: ScopeId,
    scope: ScopeId,
)
    requires
        after.scopes == before.scopes,
    ensures
        after.encloses(ancestor, scope) == before.encloses(ancestor, scope),
    decreases scope.0,
{
    if before.has_scope(scope) && ancestor != scope {
        if let Some(p) = before.scopes[scope.0 as int].parent {
            if p.0 < scope.0 {
                lemma_same_scopes_enclose_the_same(before, after, ancestor, p);
            }
        }
    }
}

/// Fixing types keeps an expression's reads in sight.
pub proof fn lemma_fixing_types_keeps_reads_visible(
    before: ContextModel,
    after: ContextModel,
    scope: ScopeId,
    expression: RastExpression,
)
    requires
        only_fixes_types(after, before),
        reads_visible(before, scope, expression),
    ensures
        reads_visible(after, scope, expression),
    decreases expression,
{
    match expression {
        RastExpression::IntegerConstant(_) => {},
        RastExpression::Local(local_id) => {
            lemma_fixing_types_keeps_visible(before, after, scope, local_id);
        },
        RastExpression::UnaryOp(_, arg) => {
            lemma_fixing_types_keeps_reads_visible(before, after, scope, arg.1);
        },
        RastExpression::BinaryOp(_, args) => {
            lemma_fixing_types_keeps_reads_visible(before, after, scope, args.0.1);
            lemma_fixing_types_keeps_reads_visible(before, after, scope, args.1.1);
        },
    }
}

/// Fixing types keeps a statement well-scoped.
pub proof fn lemma_fixing_types_keeps_well_scoped(
    before: ContextModel,
    after: ContextModel,
    scope: ScopeId,
    statement: RastStmtModel,
)
    requires
        only_fixes_types(after, before),
        is_well_scoped(before, scope, statement),
    ensures
        is_well_scoped(after, scope, statement),
    decreases statement,
{
    match statement {
        RastStmtModel::AssignLocal { offset, local_id, value } => {
            lemma_fixing_types_keeps_visible(before, after, scope, local_id);
            lemma_fixing_types_keeps_reads_visible(before, after, scope, value.1);
        },
        RastStmtModel::Block { offset, scope_id, inner } => {
            assert forall|i: int| 0 <= i < inner.len() implies is_well_scoped(
                after,
                scope_id,
                #[trigger] inner[i],
            ) by {
                lemma_fixing_types_keeps_well_scoped(before, after, scope_id, inner[i]);
            }
        },
    }
}

/// An expression that reads only locals that are in sight and have a type
/// has a type, or an operand of the wrong type: no local in it is untyped.
pub proof fn lemma_scoped_expression_has_no_untyped_local(
    ctx: ContextModel,
    scope: ScopeId,
    expression: RastExpressionCtx,
    n: nat,
)
    requires
        reads_visible(ctx, scope, expression.1),
        reads_below(expression.1, n),
        all_typed_below(ctx, n),
    ensures
        !is_untyped_local(spec_resolve_expression(ctx, scope, expression)),
    decreases expression,
{
    match expression.1 {
        RastExpression::IntegerConstant(_) => {},
        RastExpression::Local(local_id) => {
            assert(ctx.locals[local_id.0 as int].initial_type is Some);
        },
        RastExpression::UnaryOp(_, arg) => {
            lemma_scoped_expression_has_no_untyped_local(ctx, scope, *arg, n);
        },
        RastExpression::BinaryOp(_, args) => {
            lemma_scoped_expression_has_no_untyped_local(ctx, scope, args.0, n);
            lemma_scoped_expression_has_no_untyped_local(ctx, scope, args.1, n);
        },
    }
}

/// A well-scoped statement that assigns in order is never refused for a local
/// without a type, and if it passes, every local that then has a value has
/// a type.
pub proof fn lemma_scoped_statement_has_no_untyped_local(
    ctx: ContextModel,
    scope: ScopeId,
    statement: RastStmtModel,
    n: nat,
)
    requires
        is_well_scoped(ctx, scope, statement),
        assigns_in_order(statement, n) is Some,
        all_typed_below(ctx, n),
    ensures
        !is_untyped_local(spec_visit_statement(ctx, scope, statement).result),
        spec_visit_statement(ctx, scope, statement).result is Ok ==> all_typed_below(
            spec_visit_statement(ctx, scope, statement).ctx,
            assigns_in_order(statement, n)->0,
        ),
    decreases statement, 0int,
{
    match statement {
        RastStmtModel::AssignLocal { offset, local_id, value } => {
            lemma_scoped_expression_has_no_untyped_local(ctx, scope, value, n);
            lemma_checking_only_fixes_types(ctx, scope, statement);
            let after = spec_visit_statement(ctx, scope, statement).ctx;
            if spec_visit_statement(ctx, scope, statement).result is Ok {
                let m = assigns_in_order(statement, n)->0;
                assert forall|l: int| 0 <= l < m implies l < after.locals.len() && (
                #[trigger] after.locals[l]).initial_type is Some by {
                    if l < n {
                        assert(ctx.locals[l].initial_type is Some);
                    }
                }
            }
        },
        RastStmtModel::Block { offset, scope_id, inner } => {
            lemma_scoped_statements_have_no_untyped_local(ctx, scope_id, inner, 0, n);
        },
    }
}

/// The same for the statements from index `from` on.
pub proof fn lemma_scoped_statements_have_no_untyped_local(
    ctx: ContextModel,
    scope: ScopeId,
    statements: Seq<RastStmtModel>,
    from: int,
    n: nat,
)
    requires
        0 <= from,
        forall|i: int|
            from <= i < statements.len() ==> is_well_scoped(ctx, scope, #[trigger] statements[i]),
        all_assign_in_order(statements, from, n) is Some,
        all_typed_below(ctx, n),
    ensures
        !is_untyped_local(spec_visit_statements(ctx, scope, statements, from).result),
        spec_visit_statements(ctx, scope, statements, from).result is Ok ==> all_typed_below(
            spec_visit_statements(ctx, scope, statements, from).ctx,
            all_assign_in_order(statements, from, n)->0,
        ),
    decreases statements, statements.len() - from,
{
    if from < statements.len() {
        let first = spec_visit_statement(ctx, scope, statements[from]);
        lemma_scoped_statement_has_no_untyped_local(ctx, scope, statements[from], n);
        if first.result is Ok {
            lemma_checking_only_fixes_types(ctx, scope, statements[from]);
            assert forall|i: int| from + 1 <= i < statements.len() implies is_well_scoped(
                first.ctx,
                scope,
                #[trigger] statements[i],
            ) by {
                lemma_fixing_types_keeps_well_scoped(ctx, first.ctx, scope, statements[i]);
            }
            lemma_scoped_statements_have_no_untyped_local(
                first.ctx,
                scope,
                statements,
                from + 1,
                assigns_in_order(statements[from], n)->0,
            );
        }
    }
}

/// The type checker never finds a local without a type in a program that
/// resolution has produced: every local is assigned, and by that typed,
/// before it is read, and everything a statement names is in its sight.
pub proof fn lemma_resolved_program_has_no_untyped_local(program: Seq<StmtModel>)
    requires
        spec_transform_program(program).result is Ok,
        spec_transform_program(program).ctx.locals.len() <= usize::MAX,
        spec_transform_program(program).ctx.scopes.len() <= usize::MAX,
    ensures
        !is_untyped_local(
            spec_visit_program(
                spec_transform_program(program).ctx,
                spec_transform_program(program).result->Ok_0,
            ).result,
        ),
{
    let start = ContextModel::empty().declare_scope(None);
    let resolved = spec_transform_program(program);
    lemma_resolved_statements_assign_in_order(start, ScopeId(0), program, 0);
    lemma_resolved_program_is_well_scoped(program);
    lemma_scoped_statements_have_no_untyped_local(
        resolved.ctx,
        ScopeId(0),
        resolved.result->Ok_0,
        0,
        0,
    );
}

/// The type of a value.
pub open spec fn value_type(value: Value) -> TypeRef {
    match value {
        Value::I32(_) => TypeRef::Primitive(PrimitiveType::I32),
        Value::Bool(_) => TypeRef::Primitive(PrimitiveType::Bool),
    }
}

/// The locals with an id below `n` have a value, and the type that the
/// context has fixed for each of them is the type of its value.
pub open spec fn env_is_typed(ctx: ContextModel, env: Environment, n: nat) -> bool {
    forall|l: usize|
        l < n ==> #[trigger] env.contains_key(l) && l < ctx.locals.len() && ctx.locals[l as int].initial_type
            == Some(value_type(env[l]))
}

/// An expression that has a type and reads only locals that have a value of
/// their type has a value, and that value is of the expression's type.
pub proof fn lemma_typed_expression_evaluates(
    ctx: ContextModel,
    scope: ScopeId,
    expression: RastExpressionCtx,
    env: Environment,
    n: nat,
)
    requires
        spec_resolve_expression(ctx, scope, expression) is Ok,
        reads_below(expression.1, n),
        env_is_typed(ctx, env, n),
    ensures
        spec_evaluate(env, expression.1) matches Some(value) && spec_resolve_expression(
            ctx,
            scope,
            expression,
        ) == Ok::<TypeRef, TypeErrorCtx>(value_type(value)),
    decreases expression,
{
    match expression.1 {
        RastExpression::IntegerConstant(_) => {},
        RastExpression::Local(local_id) => {
            assert(env.contains_key(local_id.0));
        },
        RastExpression::UnaryOp(_, arg) => {
            lemma_typed_expression_evaluates(ctx, scope, *arg, env, n);
        },
        RastExpression::BinaryOp(_, args) => {
            lemma_typed_expression_evaluates(ctx, scope, args.0, env, n);
            lemma_typed_expression_evaluates(ctx, scope, args.1, env, n);
        },
    }
}

/// A statement that passes the type checker and assigns in order can be
/// executed, and leaves every local that then has a value with a value of
/// its type.
pub proof fn lemma_checked_statement_executes(
    ctx: ContextModel,
    scope: ScopeId,
    statement: RastStmtModel,
    env: Environment,
    n: nat,
)
    requires
        spec_visit_statement(ctx, scope, statement).result is Ok,
        assigns_in_order(statement, n) is Some,
        env_is_typed(ctx, env, n),
    ensures
        spec_execute(env, statement) matches Some(after) && env_is_typed(
            spec_visit_statement(ctx, scope, statement).ctx,
            after,
            assigns_in_order(statement, n)->0,
        ),
    decreases statement, 0int,
{
    match statement {
        RastStmtModel::AssignLocal { offset, local_id, value } => {
            lemma_typed_expression_evaluates(ctx, scope, value, env, n);
            let v = spec_evaluate(env, value.1)->0;
            let after = env.insert(local_id.0, v);
            let checked = spec_visit_statement(ctx, scope, statement).ctx;
            let m = assigns_in_order(statement, n)->0;
            if local_id.0 < n {
                assert(env.contains_key(local_id.0));
            }
            assert forall|l: usize| l < m implies #[trigger] after.contains_key(l) && l
                < checked.locals.len() && checked.locals[l as int].initial_type == Some(
                value_type(after[l]),
            ) by {
                if l != local_id.0 {
                    assert(env.contains_key(l));
                }
            }
            assert(spec_execute(env, statement) == Some(after));
            assert(env_is_typed(checked, after, m));
        },
        RastStmtModel::Block { offset, scope_id, inner } => {
            lemma_checked_statements_execute(ctx, scope_id, inner, 0, env, n);
        },
    }
}

/// The same for the statements from index `from` on.
pub proof fn lemma_checked_statements_execute(
    ctx: ContextModel,
    scope: ScopeId,
    statements: Seq<RastStmtModel>,
    from: int,
    env: Environment,
    n: nat,
)
    requires
        spec_visit_statements(ctx, scope, statements, from).result is Ok,
        all_assign_in_order(statements, from, n) is Some,
        env_is_typed(ctx, env, n),
    ensures
        spec_execute_all(env, statements, from) matches Some(after) && env_is_typed(
            spec_visit_statements(ctx, scope, statements, from).ctx,
            after,
            all_assign_in_order(statements, from, n)->0,
        ),
    decreases statements, statements.len() - from,
{
    if 0 <= from < statements.len() {
        let first = spec_visit_statement(ctx, scope, statements[from]);
        lemma_checked_statement_executes(ctx, scope, statements[from], env, n);
        lemma_checked_statements_execute(
            first.ctx,
            scope,
            statements,
            from + 1,
            spec_execute(env, statements[from])->0,
            assigns_in_order(statements[from], n)->0,
        );
    }
}

/// No ill-scoped or ill-typed program reaches evaluation, and what reaches it
/// can be evaluated: a program that is resolved without a failure and passes
/// the type checker is executed to the end, from the empty environment,
/// without a local that has no value, an operand of the wrong kind or an
/// operator without a rule.
pub proof fn lemma_accepted_program_executes(program: Seq<StmtModel>)
    requires
        spec_transform_program(program).result is Ok,
        spec_transform_program(program).ctx.locals.len() <= usize::MAX,
        spec_visit_program(
            spec_transform_program(program).ctx,
            spec_transform_program(program).result->Ok_0,
        ).result is Ok,
    ensures
        spec_execute_all(
            Map::<usize, Value>::empty(),
            spec_transform_program(program).result->Ok_0,
            0,
        ) is Some,
{
    let start = ContextModel::empty().declare_scope(None);
    let resolved = spec_transform_program(program);
    lemma_resolved_statements_assign_in_order(start, ScopeId(0), program, 0);
    lemma_checked_statements_execute(
        resolved.ctx,
        ScopeId(0),
        resolved.result->Ok_0,
        0,
        Map::<usize, Value>::empty(),
        0,
    );
}

} // verus!
