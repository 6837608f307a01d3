//! The node model: the expression and pattern families the decoder builds.
//!
//! Each family is a closed tagged union with exhaustive matching in the
//! dispatcher. Every variant supplies a post-construction audit hook,
//! `auditor_stamps`, used only for diagnostics: it never fails, has no
//! decoding side effect, and leaves rendering to the caller.

use vstd::prelude::*;

verus! {

/// The capability every expression node supplies: a post-construction audit
/// stamp for an external trace logger to render.
pub trait Expr {
    /// The audit stamp of this node kind.
    fn auditor_stamps(&self) -> &'static str;
}

/// The capability every pattern node supplies, mirroring [`Expr`].
pub trait Pattern {
    /// The audit stamp of this node kind.
    fn auditor_stamps(&self) -> &'static str;
}

/// The pattern that binds a name once and finally.
#[derive(Debug, Clone, Copy, PartialEq, Eq)]
pub struct FinalPattern;

impl Pattern for FinalPattern {
    fn auditor_stamps(&self) -> &'static str {
        "New FinalPattern!"
    }
}

/// The null literal expression; it carries no payload bytes.
#[derive(Debug, Clone, Copy, PartialEq, Eq)]
pub struct NullExpr;

impl Expr for NullExpr {
    fn auditor_stamps(&self) -> &'static str {
        "New NullExpr"
    }
}

/// A character literal expression: exactly one Unicode scalar.
#[derive(Debug, Clone, Copy, PartialEq, Eq)]
pub struct CharExpr {
    /// The decoded scalar.
    pub expr: char,
}

impl CharExpr {
    /// Builds a character literal holding the given scalar.
    pub fn new(c: char) -> (r: CharExpr)
        ensures
            r.expr == c,
    {
        CharExpr { expr: c }
    }
}

impl Expr for CharExpr {
    fn auditor_stamps(&self) -> &'static str {
        "New CharExpr"
    }
}

/// The closed union of expression node kinds this decoder builds. The format
/// defines further literal and higher-level forms; until their field layouts
/// come from the authoritative grammar, dispatching their tags fails with
/// `Unsupported` and no variant stands for them here.
#[derive(Debug, Clone, Copy, PartialEq, Eq)]
pub enum Expression {
    /// The null literal.
    Null(NullExpr),
    /// A single-scalar character literal.
    Character(CharExpr),
}

} // verus!
