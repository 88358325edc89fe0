//! What resolution reports when it fails.

use vstd::prelude::*;
use crate::name::{Name, Namepath};

verus! {

/// Why a module's recipes could not be resolved.
#[derive(Debug, PartialEq, Eq)]
pub enum CompileErrorKind {
    /// A dependency chain leads back to a recipe that is still being
    /// resolved. `circle` starts and ends with the recipe that was met again.
    CircularRecipeDependency { recipe: String, circle: Vec<String> },
    /// A variable is no assignment, no parameter in scope and no constant.
    UndefinedVariable { variable: String },
    /// A dependency names no recipe that resolution can reach.
    UnknownDependency { recipe: String, unknown: Namepath },
}

/// A failure together with the identifier at which it was found.
#[derive(Debug, PartialEq, Eq)]
pub struct CompileError {
    pub token: Name,
    pub kind: CompileErrorKind,
}

pub type CompileResult<T> = Result<T, CompileError>;

} // verus!
