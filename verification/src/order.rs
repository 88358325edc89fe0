//! The order in which linking proceeds, and with it the answer where the
//! worklist would justify several.
//!
//! Linking takes the recipes of the worklist in the order of their
//! declaration. It links a recipe by going through its dependencies in the
//! order in which they are written. A dependency that can be reached now is
//! done; one whose leaf is the name of a recipe that is being linked closes
//! a cycle; one whose leaf is the name of a waiting recipe has that recipe
//! linked first; any other is unknown. A recipe is resolved when all its
//! dependencies are done. The first failure ends linking.

use vstd::prelude::*;
use crate::error::{CompileError, CompileErrorKind};
use crate::keyed::{first_index, Keyed};
use crate::name::{string_views, Name, Namepath};
use crate::recipe::UnresolvedRecipe;
use crate::resolved_recipes::ResolvedRecipes;

verus! {

/// How far linking has come: the names of the recipes that the namespace
/// holds, in its order, and the recipes that wait.
pub struct Linking {
    pub resolved: Seq<Seq<char>>,
    pub waiting: Seq<UnresolvedRecipe>,
}

/// Why linking stops.
pub enum LinkFailure {
    /// The dependency at `token` of `recipe` leads back to a recipe that is
    /// being linked.
    Circular { token: Name, recipe: Seq<char>, circle: Seq<Seq<char>> },
    /// The dependency at `token` of `recipe` leads nowhere.
    Unknown { token: Name, recipe: Seq<char>, unknown: Seq<Name> },
}

/// The error says what the failure is, and stands where it was found.
pub open spec fn reports(error: CompileError, failure: LinkFailure) -> bool {
    match failure {
        LinkFailure::Circular { token, recipe, circle } => error.token == token && match error.kind {
            CompileErrorKind::CircularRecipeDependency { recipe: named, circle: names } => named@
                == recipe && string_views(names@) == circle,
            _ => false,
        },
        LinkFailure::Unknown { token, recipe, unknown } => error.token == token && match error.kind {
            CompileErrorKind::UnknownDependency { recipe: named, unknown: path } => named@ == recipe
                && path@ == unknown,
            _ => false,
        },
    }
}

/// The cycle that is closed when a dependency names `name`, which stands on
/// the stack at index `at`: the stack from there on, and the name once more.
pub open spec fn cycle_through(stack: Seq<Seq<char>>, at: int, name: Seq<char>) -> Seq<Seq<char>> {
    stack.skip(at).push(name)
}

/// The path leads to a recipe that is resolved by now: a single name to one
/// of the module's own resolved recipes, a longer path into the submodules.
pub open spec fn reached(start: ResolvedRecipes, resolved: Seq<Seq<char>>, path: Namepath) -> bool {
    if path@.len() == 1 {
        resolved.contains(path.leaf().text())
    } else {
        start.lookup_path(path@) is Some
    }
}

/// Links `recipe`, which was taken from the waiting ones, unless it is
/// resolved already. `stack` names the recipes whose linking led here.
pub open spec fn link_recipe(
    start: ResolvedRecipes,
    resolved: Seq<Seq<char>>,
    waiting: Seq<UnresolvedRecipe>,
    stack: Seq<Seq<char>>,
    recipe: UnresolvedRecipe,
) -> Result<Linking, LinkFailure>
    decreases waiting.len(), recipe.dependencies@.len() + 1,
{
    if resolved.contains(recipe.key_spec()) {
        Ok(Linking { resolved, waiting })
    } else {
        link_dependencies(start, resolved, waiting, stack.push(recipe.key_spec()), recipe, 0)
    }
}

/// Links the dependencies of `recipe` from the one at index `j` on, and
/// then resolves the recipe. Its name is the last one on `stack`.
pub open spec fn link_dependencies(
    start: ResolvedRecipes,
    resolved: Seq<Seq<char>>,
    waiting: Seq<UnresolvedRecipe>,
    stack: Seq<Seq<char>>,
    recipe: UnresolvedRecipe,
    j: int,
) -> Result<Linking, LinkFailure>
    decreases waiting.len(), recipe.dependencies@.len() - j,
{
    if j < 0 || j >= recipe.dependencies@.len() {
        Ok(Linking { resolved: resolved.push(recipe.key_spec()), waiting })
    } else {
        let path = recipe.dependencies@[j].recipe;
        let leaf = path.leaf();
        if reached(start, resolved, path) {
            link_dependencies(start, resolved, waiting, stack, recipe, j + 1)
        } else if stack.contains(leaf.text()) {
            Err(
                LinkFailure::Circular {
                    token: leaf,
                    recipe: recipe.key_spec(),
                    circle: cycle_through(stack, stack.index_of(leaf.text()), leaf.text()),
                },
            )
        } else if 0 <= first_index(waiting, leaf.text()) < waiting.len() {
            let at = first_index(waiting, leaf.text());
            match link_recipe(start, resolved, waiting.remove(at), stack, waiting[at]) {
                Ok(linking) => {
                    if linking.waiting.len() < waiting.len() {
                        link_dependencies(
                            start,
                            linking.resolved,
                            linking.waiting,
                            stack,
                            recipe,
                            j + 1,
                        )
                    } else {
                        Ok(linking)
                    }
                },
                Err(failure) => Err(failure),
            }
        } else {
            Err(LinkFailure::Unknown { token: leaf, recipe: recipe.key_spec(), unknown: path@ })
        }
    }
}

/// Links the waiting recipes, the first one first. Where that succeeds,
/// the result names the recipes of the namespace, in its order.
pub open spec fn link_all(
    start: ResolvedRecipes,
    resolved: Seq<Seq<char>>,
    waiting: Seq<UnresolvedRecipe>,
) -> Result<Seq<Seq<char>>, LinkFailure>
    decreases waiting.len(),
{
    if waiting.len() == 0 {
        Ok(resolved)
    } else {
        match link_recipe(start, resolved, waiting.remove(0), Seq::empty(), waiting[0]) {
            Ok(linking) => {
                if linking.waiting.len() < waiting.len() {
                    link_all(start, linking.resolved, linking.waiting)
                } else {
                    Ok(linking.resolved)
                }
            },
            Err(failure) => Err(failure),
        }
    }
}

} // verus!
