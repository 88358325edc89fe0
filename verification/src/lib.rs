//! Resolution of the recipes of one module.
//!
//! A module declares recipes: named sequences of commands with parameters,
//! dependencies on other recipes, and a body in which variables are
//! interpolated. Resolution links each dependency to the recipe that it
//! names, in this module or in one of its submodules, and checks that
//! every variable is defined where it is mentioned. It either returns the
//! namespace of the module, or the first failure that it met.
//!
//! * [`name`], [`syntax`], [`recipe`] and [`error`] hold the data.
//! * [`keyed`] and [`table`] hold entries that are found by name.
//! * [`resolved_recipes`] is the namespace of a module.
//! * [`linking`] says what a resolution of a worklist is, [`order`] in which
//!   order linking proceeds, and [`scope`] where a variable is defined.
//! * [`recipe_resolver`] resolves, and [`laws`] states what follows.

pub mod error;
pub mod keyed;
pub mod laws;
pub mod linking;
pub mod name;
pub mod order;
mod progress;
pub mod recipe;
pub mod recipe_resolver;
pub mod resolved_recipes;
pub mod scope;
pub mod syntax;
pub mod table;

pub use crate::error::{CompileError, CompileErrorKind, CompileResult};
pub use crate::name::{Name, Namepath};
pub use crate::recipe::{Dependency, Recipe, UnresolvedDependency, UnresolvedRecipe};
pub use crate::recipe_resolver::RecipeResolver;
pub use crate::resolved_recipes::ResolvedRecipes;
pub use crate::syntax::{
    Assignment, Constant, Expression, Fragment, Line, Parameter, Settings,
};
pub use crate::table::Table;
