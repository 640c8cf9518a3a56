//! The tree that the type checker and the evaluator work on. It is the
//! resolved tree itself: checking fixes types in the context and leaves the
//! tree as it is.

pub use crate::rast::{
    Local, LocalId, PrimitiveType, Scope, ScopeId, TypeRef, UserType, UserTypeDef, UserTypeId,
};
pub use crate::rast::{
    RastExpression as MirExpression, RastExpressionCtx as MirExpressionCtx,
    RastProgram as MirProgram, RastStatement as MirStatement,
    RastStatementCtx as MirStatementCtx,
};
