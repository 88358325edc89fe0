//! What it means to link the recipes of a worklist into a namespace: the
//! dependency graph that the worklist declares, the namespaces that are a
//! resolution of it, and the failures that it can justly be blamed for.
//!
//! Throughout, `start` is the namespace before resolution (the submodules,
//! and whatever recipes it already holds) and `worklist` the recipes that
//! were declared, in the order of their declaration.

use std::rc::Rc;
use vstd::prelude::*;
use crate::error::{CompileError, CompileErrorKind};
use crate::keyed::{
    distinct_keys, extends, has_key, lemma_first_index, lemma_lookup_extends, lookup, Keyed,
};
use crate::name::{string_views, Name, Namepath};
use crate::recipe::{Recipe, UnresolvedRecipe};
use crate::resolved_recipes::ResolvedRecipes;

verus! {

/// The name stands in the worklist and is not yet resolved in `start`: it is
/// a recipe that resolution has to link.
pub open spec fn pending(start: ResolvedRecipes, worklist: Seq<UnresolvedRecipe>, name: Seq<char>) -> bool {
    has_key(worklist, name) && !has_key(start.local(), name)
}

/// Dependency `j` of the worklist's recipe `i`, which is named `from` and is
/// not resolved in `start`, has the leaf `to` and a path that `start` does
/// not resolve.
pub open spec fn refers_at(
    start: ResolvedRecipes,
    worklist: Seq<UnresolvedRecipe>,
    i: int,
    j: int,
    from: Seq<char>,
    to: Seq<char>,
) -> bool {
    &&& 0 <= i < worklist.len()
    &&& 0 <= j < worklist[i].dependencies@.len()
    &&& worklist[i].key_spec() == from
    &&& !has_key(start.local(), from)
    &&& start.lookup_path(worklist[i].dependencies@[j].recipe@) is None
    &&& worklist[i].dependencies@[j].recipe.leaf().text() == to
}

/// The recipe `from` declares a dependency with the leaf `to` that `start`
/// does not resolve.
pub open spec fn refers_to(
    start: ResolvedRecipes,
    worklist: Seq<UnresolvedRecipe>,
    from: Seq<char>,
    to: Seq<char>,
) -> bool {
    exists|i: int, j: int| refers_at(start, worklist, i, j, from, to)
}

/// An edge of the dependency graph: both recipes are to be linked, and the
/// first declares a dependency on the second.
pub open spec fn depends_on(
    start: ResolvedRecipes,
    worklist: Seq<UnresolvedRecipe>,
    from: Seq<char>,
    to: Seq<char>,
) -> bool {
    refers_to(start, worklist, from, to) && pending(start, worklist, to)
}

/// The name at index `k` of `names` depends on the next one.
pub open spec fn chained(
    start: ResolvedRecipes,
    worklist: Seq<UnresolvedRecipe>,
    names: Seq<Seq<char>>,
    k: int,
) -> bool {
    depends_on(start, worklist, names[k], names[k + 1])
}

/// `circle` is a cycle of the dependency graph: it ends where it starts,
/// each name depends on the next, and no name but the first occurs twice.
pub open spec fn is_cycle(
    start: ResolvedRecipes,
    worklist: Seq<UnresolvedRecipe>,
    circle: Seq<Seq<char>>,
) -> bool {
    &&& circle.len() >= 2
    &&& circle.first() == circle.last()
    &&& forall|k: int| 0 <= k < circle.len() - 1 ==> #[trigger] chained(start, worklist, circle, k)
    &&& forall|k: int, l: int| 0 <= k < l < circle.len() - 1 ==> circle[k] != circle[l]
}

/// The dependency graph has no cycle.
pub open spec fn acyclic(start: ResolvedRecipes, worklist: Seq<UnresolvedRecipe>) -> bool {
    forall|circle: Seq<Seq<char>>| !is_cycle(start, worklist, circle)
}

/// `target` is what a dependency with the path `path` is linked to: the
/// recipe that `start` finds under the path, or else one of the first
/// `bound` recipes of `local` that bears the name of the path's leaf.
pub open spec fn target_of(
    start: ResolvedRecipes,
    path: Namepath,
    target: Rc<Recipe>,
    local: Seq<Rc<Recipe>>,
    bound: int,
) -> bool {
    match start.lookup_path(path@) {
        Some(found) => target == found,
        None => exists|k: int|
            0 <= k < bound && k < local.len() && #[trigger] local[k] == target && local[k].key_spec()
                == path.leaf().text(),
    }
}

/// The recipe at index `i` of `local` is `unresolved`, linked: all else is
/// as declared, and each dependency holds its target, which is a recipe of
/// `start` or stands before index `i`.
pub open spec fn linked_at(
    start: ResolvedRecipes,
    unresolved: UnresolvedRecipe,
    local: Seq<Rc<Recipe>>,
    i: int,
) -> bool {
    &&& local[i].name == unresolved.name
    &&& local[i].parameters == unresolved.parameters
    &&& local[i].body == unresolved.body
    &&& local[i].dependencies@.len() == unresolved.dependencies@.len()
    &&& forall|j: int|
        0 <= j < unresolved.dependencies@.len() ==> {
            &&& (#[trigger] local[i].dependencies@[j]).arguments == unresolved.dependencies@[j].arguments
            &&& target_of(
                start,
                unresolved.dependencies@[j].recipe,
                local[i].dependencies@[j].recipe,
                local,
                i,
            )
        }
}

/// The recipe at index `i` of `local` is the linked form of the worklist's
/// recipe of the same name.
pub open spec fn resolved_at(
    start: ResolvedRecipes,
    worklist: Seq<UnresolvedRecipe>,
    local: Seq<Rc<Recipe>>,
    i: int,
) -> bool {
    match lookup(worklist, local[i].key_spec()) {
        Some(unresolved) => linked_at(start, unresolved, local, i),
        None => false,
    }
}

/// `namespace` is a resolution of `worklist` over `start`: the submodules
/// and the recipes of `start` are kept, every recipe of the worklist is
/// resolved in it, and each recipe that was added is the linked form of the
/// worklist's recipe of that name, standing after all of its dependencies.
pub open spec fn is_resolution(
    start: ResolvedRecipes,
    worklist: Seq<UnresolvedRecipe>,
    namespace: ResolvedRecipes,
) -> bool {
    &&& namespace.module_name() == start.module_name()
    &&& namespace.children() == start.children()
    &&& namespace.wf()
    &&& distinct_keys(namespace.local())
    &&& extends(start.local(), namespace.local())
    &&& forall|i: int|
        start.local().len() <= i < namespace.local().len() ==> #[trigger] resolved_at(
            start,
            worklist,
            namespace.local(),
            i,
        )
    &&& forall|w: int|
        0 <= w < worklist.len() ==> has_key(namespace.local(), #[trigger] worklist[w].key_spec())
}

/// The error reports an unknown dependency that the worklist does declare:
/// a recipe to be linked has a dependency whose path `start` does not
/// resolve and whose leaf is not the recipe itself, nor, for a path of one
/// segment, any recipe of the worklist. The error names the recipe and the
/// path, and stands at the path's leaf.
pub open spec fn unknown_dependency_at(
    start: ResolvedRecipes,
    worklist: Seq<UnresolvedRecipe>,
    error: CompileError,
    i: int,
    j: int,
) -> bool {
    &&& 0 <= i < worklist.len()
    &&& 0 <= j < worklist[i].dependencies@.len()
    &&& !has_key(start.local(), worklist[i].key_spec())
    &&& start.lookup_path(worklist[i].dependencies@[j].recipe@) is None
    &&& worklist[i].dependencies@[j].recipe.leaf().text() != worklist[i].key_spec()
    &&& worklist[i].dependencies@[j].recipe@.len() == 1 ==> !has_key(
        worklist,
        worklist[i].dependencies@[j].recipe.leaf().text(),
    )
    &&& error.token == worklist[i].dependencies@[j].recipe.leaf()
    &&& match error.kind {
        CompileErrorKind::UnknownDependency { recipe, unknown } => recipe@ == worklist[i].key_spec()
            && unknown@ == worklist[i].dependencies@[j].recipe@,
        _ => false,
    }
}

/// The error reports a cycle that the dependency graph does have: `circle`
/// is a cycle, `recipe` is the last recipe on it, and the error stands at
/// the leaf of a dependency of `recipe` that closes the cycle.
pub open spec fn circular_dependency_at(
    start: ResolvedRecipes,
    worklist: Seq<UnresolvedRecipe>,
    error: CompileError,
    i: int,
    j: int,
) -> bool {
    match error.kind {
        CompileErrorKind::CircularRecipeDependency { recipe, circle } => {
            &&& is_cycle(start, worklist, string_views(circle@))
            &&& recipe@ == string_views(circle@)[circle@.len() - 2]
            &&& refers_at(start, worklist, i, j, recipe@, string_views(circle@)[0])
            &&& error.token == worklist[i].dependencies@[j].recipe.leaf()
        },
        _ => false,
    }
}

/// The error is a failure of linking that the worklist justifies.
pub open spec fn link_failure(
    start: ResolvedRecipes,
    worklist: Seq<UnresolvedRecipe>,
    error: CompileError,
) -> bool {
    exists|i: int, j: int|
        #![trigger worklist[i].dependencies@[j]]
        unknown_dependency_at(start, worklist, error, i, j) || circular_dependency_at(
            start,
            worklist,
            error,
            i,
            j,
        )
}

/// Every dependency of a recipe to be linked can be found wherever
/// resolution stands: `start` resolves its path, or the path is a single
/// name of the worklist.
pub open spec fn dependencies_known(
    start: ResolvedRecipes,
    worklist: Seq<UnresolvedRecipe>,
) -> bool {
    forall|i: int, j: int|
        #![trigger worklist[i].dependencies@[j]]
        0 <= i < worklist.len() && 0 <= j < worklist[i].dependencies@.len() && !has_key(
            start.local(),
            worklist[i].key_spec(),
        ) ==> {
            ||| start.lookup_path(worklist[i].dependencies@[j].recipe@) is Some
            ||| (worklist[i].dependencies@[j].recipe@.len() == 1 && has_key(
                worklist,
                worklist[i].dependencies@[j].recipe.leaf().text(),
            ))
        }
}

/// Linking is owed to succeed: every dependency is known and the
/// dependency graph has no cycle.
pub open spec fn linkable(start: ResolvedRecipes, worklist: Seq<UnresolvedRecipe>) -> bool {
    dependencies_known(start, worklist) && acyclic(start, worklist)
}

/// A recipe found under a path bears the name of the path's leaf.
pub proof fn lemma_lookup_path_named(namespace: ResolvedRecipes, path: Seq<Name>)
    ensures
        namespace.lookup_path(path) matches Some(found) ==> path.len() >= 1 && found.key_spec()
            == path.last().text(),
    decreases path.len(),
{
    if path.len() == 0 {
    } else if path.len() == 1 {
        lemma_first_index(namespace.local(), path[0].text());
    } else {
        match lookup(namespace.children(), path[0].text()) {
            Some(module) => {
                lemma_lookup_path_named(module, path.drop_first());
                assert(path.drop_first().last() == path.last());
            },
            None => {},
        }
    }
}

/// What a namespace finds under a path, a namespace with the same
/// submodules and more recipes finds too; and it finds nothing more under a
/// path of several segments.
pub proof fn lemma_lookup_path_extends(
    start: ResolvedRecipes,
    namespace: ResolvedRecipes,
    path: Seq<Name>,
)
    requires
        namespace.children() == start.children(),
        extends(start.local(), namespace.local()),
    ensures
        start.lookup_path(path) is Some ==> namespace.lookup_path(path) == start.lookup_path(path),
        path.len() != 1 ==> namespace.lookup_path(path) == start.lookup_path(path),
        path.len() == 1 ==> namespace.lookup_path(path) == lookup(
            namespace.local(),
            path.last().text(),
        ),
{
    if path.len() == 1 {
        lemma_lookup_extends(start.local(), namespace.local(), path[0].text());
    }
}

} // verus!
