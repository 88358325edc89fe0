//! What holds of every resolution: laws that relate the namespace that
//! resolution returns, the failures that it reports, and the worklist.

use std::rc::Rc;
use vstd::prelude::*;
use crate::error::{CompileError, CompileErrorKind, CompileResult};
use crate::keyed::{
    distinct_keys, first_index, has_key, keys, lemma_distinct_match, lemma_first_index,
    lemma_keys_contains, lemma_lookup_extends, lookup, Keyed,
};
use crate::linking::{
    acyclic, chained, circular_dependency_at, dependencies_known, is_cycle, is_resolution,
    lemma_lookup_path_extends, lemma_lookup_path_named, link_failure, linkable, linked_at,
    refers_at, refers_to, resolved_at, target_of, unknown_dependency_at,
};
use crate::name::{string_views, Name, Namepath};
use crate::order::{
    cycle_through, link_all, link_dependencies, link_recipe, reached, LinkFailure, Linking,
};
use crate::recipe::{Recipe, UnresolvedRecipe};
use crate::recipe_resolver::{in_order, resolution_outcome, sources_scoped};
use crate::scope::{
    lemma_default_sees_earlier_parameters, lemma_scope_failure_is_just, names_undefined,
    recipes_scoped, scope_failure, well_scoped, Globals,
};
use crate::resolved_recipes::ResolvedRecipes;

verus! {

/// A failure of linking shows that the worklist cannot be linked: a
/// worklist whose dependencies are all known and free of cycles yields no
/// such failure.
pub proof fn lemma_link_failure_is_just(
    start: ResolvedRecipes,
    worklist: Seq<UnresolvedRecipe>,
    error: CompileError,
)
    requires
        link_failure(start, worklist, error),
    ensures
        !linkable(start, worklist),
{
    let (i, j) = choose|i: int, j: int|
        #![trigger worklist[i].dependencies@[j]]
        unknown_dependency_at(start, worklist, error, i, j) || circular_dependency_at(
            start,
            worklist,
            error,
            i,
            j,
        );
    if unknown_dependency_at(start, worklist, error, i, j) {
        let dependency = worklist[i].dependencies@[j];
        assert(!dependencies_known(start, worklist));
    } else {
        match error.kind {
            CompileErrorKind::CircularRecipeDependency { recipe, circle } => {
                assert(is_cycle(start, worklist, string_views(circle@)));
            },
            _ => {},
        }
    }
}

/// In a resolution every recipe stands after the recipes of the worklist
/// that it depends on.
pub proof fn lemma_dependency_precedes(
    start: ResolvedRecipes,
    worklist: Seq<UnresolvedRecipe>,
    namespace: ResolvedRecipes,
    from: Seq<char>,
    to: Seq<char>,
)
    requires
        distinct_keys(worklist),
        is_resolution(start, worklist, namespace),
        refers_to(start, worklist, from, to),
    ensures
        first_index(namespace.local(), to) < first_index(namespace.local(), from)
            < namespace.local().len(),
{
    let local = namespace.local();
    let (i, j) = choose|i: int, j: int| refers_at(start, worklist, i, j, from, to);
    lemma_first_index(local, from);
    lemma_first_index(local, to);
    lemma_lookup_extends(start.local(), local, from);
    assert(has_key(local, worklist[i].key_spec()));
    let at = first_index(local, from);
    if at < start.local().len() {
        assert(local[at] == start.local()[at]);
        assert(false);
    }
    assert(resolved_at(start, worklist, local, at));
    lemma_distinct_match(worklist, i);
    assert(linked_at(start, worklist[i], local, at));
    let path = worklist[i].dependencies@[j].recipe;
    let dependency = local[at].dependencies@[j];
    assert(target_of(start, path, dependency.recipe, local, at));
    let k = choose|k: int|
        0 <= k < at && k < local.len() && #[trigger] local[k] == dependency.recipe && local[k].key_spec()
            == path.leaf().text();
    assert(local[k].key_spec() == to);
}

/// Along a chain of dependencies the places in a resolution go down.
proof fn lemma_chain_descends(
    start: ResolvedRecipes,
    worklist: Seq<UnresolvedRecipe>,
    namespace: ResolvedRecipes,
    names: Seq<Seq<char>>,
    k: int,
)
    requires
        distinct_keys(worklist),
        is_resolution(start, worklist, namespace),
        0 <= k < names.len(),
        forall|h: int| 0 <= h < names.len() - 1 ==> #[trigger] chained(start, worklist, names, h),
    ensures
        first_index(namespace.local(), names[k]) + k <= first_index(namespace.local(), names[0]),
    decreases k,
{
    if k > 0 {
        lemma_chain_descends(start, worklist, namespace, names, k - 1);
        assert(chained(start, worklist, names, k - 1));
        lemma_dependency_precedes(start, worklist, namespace, names[k - 1], names[k]);
    }
}

/// A worklist that has a resolution has no cycle among its dependencies.
pub proof fn lemma_resolution_is_acyclic(
    start: ResolvedRecipes,
    worklist: Seq<UnresolvedRecipe>,
    namespace: ResolvedRecipes,
)
    requires
        distinct_keys(worklist),
        is_resolution(start, worklist, namespace),
    ensures
        acyclic(start, worklist),
{
    assert forall|circle: Seq<Seq<char>>| !is_cycle(start, worklist, circle) by {
        if is_cycle(start, worklist, circle) {
            lemma_chain_descends(start, worklist, namespace, circle, circle.len() - 1);
        }
    }
}

/// What a namespace finds under a path depends on the texts of the
/// path's segments alone, not on where they were written.
pub proof fn lemma_lookup_path_by_text(namespace: ResolvedRecipes, path: Seq<Name>, other: Seq<Name>)
    requires
        path.len() == other.len(),
        forall|k: int| 0 <= k < path.len() ==> #[trigger] path[k].text() == other[k].text(),
    ensures
        namespace.lookup_path(path) == namespace.lookup_path(other),
    decreases path.len(),
{
    if path.len() >= 2 {
        assert(path[0].text() == other[0].text());
        match lookup(namespace.children(), path[0].text()) {
            Some(module) => {
                let rest = path.drop_first();
                let other_rest = other.drop_first();
                assert forall|k: int| 0 <= k < rest.len() implies #[trigger] rest[k].text()
                    == other_rest[k].text() by {
                    assert(rest[k] == path[k + 1]);
                    assert(other_rest[k] == other[k + 1]);
                    assert(path[k + 1].text() == other[k + 1].text());
                }
                lemma_lookup_path_by_text(module, rest, other_rest);
            },
            None => {},
        }
    } else if path.len() == 1 {
        assert(path[0].text() == other[0].text());
    }
}

/// In a resolution each recipe that was added is its declaration, linked:
/// it has the name, the parameters and the body that were declared, and as
/// many dependencies, in the same order, with the arguments that were
/// declared; and each dependency holds a recipe that bears the name of the
/// declared path's leaf.
pub proof fn lemma_dependencies_as_declared(
    start: ResolvedRecipes,
    worklist: Seq<UnresolvedRecipe>,
    namespace: ResolvedRecipes,
    i: int,
)
    requires
        is_resolution(start, worklist, namespace),
        start.local().len() <= i < namespace.local().len(),
    ensures
        lookup(worklist, namespace.local()[i].key_spec()) is Some,
        ({
            let recipe = namespace.local()[i];
            let declared = lookup(worklist, recipe.key_spec())->Some_0;
            &&& recipe.name == declared.name
            &&& recipe.parameters == declared.parameters
            &&& recipe.body == declared.body
            &&& recipe.dependencies@.len() == declared.dependencies@.len()
            &&& forall|j: int|
                0 <= j < recipe.dependencies@.len() ==> {
                    &&& (#[trigger] recipe.dependencies@[j]).arguments
                        == declared.dependencies@[j].arguments
                    &&& recipe.dependencies@[j].recipe.key_spec()
                        == declared.dependencies@[j].recipe.leaf().text()
                }
        }),
{
    let local = namespace.local();
    let recipe = local[i];
    assert(resolved_at(start, worklist, local, i));
    let declared = lookup(worklist, recipe.key_spec())->Some_0;
    assert(linked_at(start, declared, local, i));
    assert forall|j: int| 0 <= j < recipe.dependencies@.len() implies {
        &&& (#[trigger] recipe.dependencies@[j]).arguments == declared.dependencies@[j].arguments
        &&& recipe.dependencies@[j].recipe.key_spec() == declared.dependencies@[j].recipe.leaf().text()
    } by {
        let path = declared.dependencies@[j].recipe;
        let target = recipe.dependencies@[j].recipe;
        assert(target_of(start, path, target, local, i));
        lemma_lookup_path_named(start, path@);
    }
}

/// In a resolution each dependency of a recipe that was added holds the
/// very recipe that the namespace holds: the one under the dependency's
/// path or, where the path leads nowhere, the module's own recipe that is
/// named like the path's leaf.
pub proof fn lemma_dependency_is_shared(
    start: ResolvedRecipes,
    worklist: Seq<UnresolvedRecipe>,
    namespace: ResolvedRecipes,
    i: int,
    j: int,
)
    requires
        is_resolution(start, worklist, namespace),
        start.local().len() <= i < namespace.local().len(),
        0 <= j < namespace.local()[i].dependencies@.len(),
    ensures
        lookup(worklist, namespace.local()[i].key_spec()) is Some,
        j < lookup(worklist, namespace.local()[i].key_spec())->Some_0.dependencies@.len(),
        ({
            let declared = lookup(worklist, namespace.local()[i].key_spec())->Some_0;
            let path = declared.dependencies@[j].recipe;
            match namespace.lookup_path(path@) {
                Some(found) => namespace.local()[i].dependencies@[j].recipe == found,
                None => namespace.lookup_local(path.leaf().text()) == Some(
                    namespace.local()[i].dependencies@[j].recipe,
                ),
            }
        }),
{
    let local = namespace.local();
    let recipe = local[i];
    assert(resolved_at(start, worklist, local, i));
    let declared = lookup(worklist, recipe.key_spec())->Some_0;
    assert(linked_at(start, declared, local, i));
    let path = declared.dependencies@[j].recipe;
    let target = recipe.dependencies@[j].recipe;
    assert(recipe.dependencies@[j].arguments == declared.dependencies@[j].arguments);
    assert(target_of(start, path, target, local, i));
    lemma_lookup_path_extends(start, namespace, path@);
    if start.lookup_path(path@) is None {
        let k = choose|k: int|
            0 <= k < i && k < local.len() && #[trigger] local[k] == target && local[k].key_spec()
                == path.leaf().text();
        lemma_distinct_match(local, k);
    }
}

/// Two dependencies whose declared paths read the same hold one and the
/// same recipe, whichever recipes declare them.
pub proof fn lemma_same_path_same_recipe(
    start: ResolvedRecipes,
    worklist: Seq<UnresolvedRecipe>,
    namespace: ResolvedRecipes,
    i1: int,
    j1: int,
    i2: int,
    j2: int,
)
    requires
        is_resolution(start, worklist, namespace),
        start.local().len() <= i1 < namespace.local().len(),
        start.local().len() <= i2 < namespace.local().len(),
        0 <= j1 < namespace.local()[i1].dependencies@.len(),
        0 <= j2 < namespace.local()[i2].dependencies@.len(),
        ({
            let path1 = lookup(
                worklist,
                namespace.local()[i1].key_spec(),
            )->Some_0.dependencies@[j1].recipe@;
            let path2 = lookup(
                worklist,
                namespace.local()[i2].key_spec(),
            )->Some_0.dependencies@[j2].recipe@;
            &&& path1.len() == path2.len()
            &&& forall|k: int| 0 <= k < path1.len() ==> #[trigger] path1[k].text() == path2[k].text()
        }),
    ensures
        namespace.local()[i1].dependencies@[j1].recipe
            == namespace.local()[i2].dependencies@[j2].recipe,
{
    let path1 = lookup(worklist, namespace.local()[i1].key_spec())->Some_0.dependencies@[j1].recipe;
    let path2 = lookup(worklist, namespace.local()[i2].key_spec())->Some_0.dependencies@[j2].recipe;
    lemma_dependency_is_shared(start, worklist, namespace, i1, j1);
    lemma_dependency_is_shared(start, worklist, namespace, i2, j2);
    lemma_lookup_path_by_text(namespace, path1@, path2@);
    path1.lemma_nonempty();
    path2.lemma_nonempty();
    assert(path1@[path1@.len() - 1].text() == path2@[path1@.len() - 1].text());
}

/// A linked recipe mentions what its declaration mentions.
pub proof fn lemma_linked_mentions(
    start: ResolvedRecipes,
    unresolved: UnresolvedRecipe,
    local: Seq<Rc<Recipe>>,
    i: int,
)
    requires
        linked_at(start, unresolved, local, i),
    ensures
        local[i].mentions() == unresolved.mentions(),
{
    let linked = local[i].mentions();
    let declared = unresolved.mentions();
    assert(linked.arguments =~= declared.arguments) by {
        assert forall|j: int| 0 <= j < linked.arguments.len() implies linked.arguments[j]
            == declared.arguments[j] by {
            assert(local[i].dependencies@[j].arguments == unresolved.dependencies@[j].arguments);
        }
    }
}

/// The recipes of a resolution are well scoped exactly when the recipes
/// that went into it are.
pub proof fn lemma_resolution_scoped(
    globals: Globals,
    ignore_comments: bool,
    start: ResolvedRecipes,
    worklist: Seq<UnresolvedRecipe>,
    namespace: ResolvedRecipes,
)
    requires
        distinct_keys(worklist),
        is_resolution(start, worklist, namespace),
    ensures
        recipes_scoped(
            globals,
            ignore_comments,
            namespace.local(),
            namespace.local().len() as int,
        ) <==> sources_scoped(globals, ignore_comments, start, worklist),
{
    let local = namespace.local();
    let kept = start.local();
    if recipes_scoped(globals, ignore_comments, local, local.len() as int) {
        assert forall|i: int| 0 <= i < kept.len() implies well_scoped(
            globals,
            ignore_comments,
            (#[trigger] kept[i]).mentions(),
        ) by {
            assert(local[i] == kept[i]);
        }
        assert forall|w: int|
            0 <= w < worklist.len() && !has_key(kept, worklist[w].key_spec()) implies well_scoped(
            globals,
            ignore_comments,
            (#[trigger] worklist[w]).mentions(),
        ) by {
            let key = worklist[w].key_spec();
            lemma_first_index(local, key);
            let at = first_index(local, key);
            if at < kept.len() {
                assert(local[at] == kept[at]);
            }
            assert(resolved_at(start, worklist, local, at));
            lemma_distinct_match(worklist, w);
            lemma_linked_mentions(start, worklist[w], local, at);
            assert(well_scoped(globals, ignore_comments, local[at].mentions()));
        }
    }
    if sources_scoped(globals, ignore_comments, start, worklist) {
        assert forall|i: int| 0 <= i < local.len() implies well_scoped(
            globals,
            ignore_comments,
            (#[trigger] local[i]).mentions(),
        ) by {
            if i < kept.len() {
                assert(local[i] == kept[i]);
                assert(well_scoped(globals, ignore_comments, kept[i].mentions()));
            } else {
                let key = local[i].key_spec();
                assert(resolved_at(start, worklist, local, i));
                lemma_first_index(worklist, key);
                let w = first_index(worklist, key);
                if has_key(kept, key) {
                    let h = choose|h: int| 0 <= h < kept.len() && #[trigger] kept[h].key_spec() == key;
                    assert(local[h] == kept[h]);
                }
                lemma_linked_mentions(start, worklist[w], local, i);
                assert(well_scoped(globals, ignore_comments, worklist[w].mentions()));
            }
        }
    }
}

/// Resolution of a worklist that can be linked and is well scoped yields a
/// namespace, and resolution that yields a namespace was given a worklist
/// without cycles whose recipes are well scoped.
pub proof fn lemma_success(
    globals: Globals,
    ignore_comments: bool,
    start: ResolvedRecipes,
    worklist: Seq<UnresolvedRecipe>,
    result: CompileResult<ResolvedRecipes>,
)
    requires
        distinct_keys(worklist),
        resolution_outcome(globals, ignore_comments, start, worklist, result),
    ensures
        linkable(start, worklist) && sources_scoped(globals, ignore_comments, start, worklist)
            ==> result is Ok,
        result is Ok ==> acyclic(start, worklist) && sources_scoped(
            globals,
            ignore_comments,
            start,
            worklist,
        ),
{
    match result {
        Ok(namespace) => {
            lemma_resolution_is_acyclic(start, worklist, namespace);
            lemma_resolution_scoped(globals, ignore_comments, start, worklist, namespace);
        },
        Err(error) => {
            if link_failure(start, worklist, error) {
                lemma_link_failure_is_just(start, worklist, error);
            } else {
                let namespace = choose|namespace: ResolvedRecipes|
                    #[trigger] is_resolution(start, worklist, namespace) && scope_failure(
                        globals,
                        ignore_comments,
                        namespace.local(),
                        error,
                    );
                lemma_scope_failure_is_just(globals, ignore_comments, namespace.local(), error);
                lemma_resolution_scoped(globals, ignore_comments, start, worklist, namespace);
            }
        },
    }
}

/// Where linking goes through but a recipe mentions an undefined variable,
/// resolution fails with `UndefinedVariable`, and the error names the
/// identifier at which it stands, which is no assignment and no constant.
pub proof fn lemma_undefined_variable_is_reported(
    globals: Globals,
    ignore_comments: bool,
    start: ResolvedRecipes,
    worklist: Seq<UnresolvedRecipe>,
    result: CompileResult<ResolvedRecipes>,
)
    requires
        distinct_keys(worklist),
        resolution_outcome(globals, ignore_comments, start, worklist, result),
        in_order(globals, ignore_comments, start, worklist, result),
        link_all(start, keys(start.local()), worklist) is Ok,
        !sources_scoped(globals, ignore_comments, start, worklist),
    ensures
        result matches Err(error) && names_undefined(globals, error),
{
    lemma_success(globals, ignore_comments, start, worklist, result);
    match result {
        Ok(namespace) => {},
        Err(error) => {
            let names = link_all(start, keys(start.local()), worklist)->Ok_0;
            let namespace = choose|namespace: ResolvedRecipes|
                #[trigger] is_resolution(start, worklist, namespace) && keys(namespace.local())
                    == names && scope_failure(
                    globals,
                    ignore_comments,
                    namespace.local(),
                    error,
                );
            lemma_scope_failure_is_just(globals, ignore_comments, namespace.local(), error);
        },
    }
}

/// The order of parameters matters for defaults: where linking goes
/// through, and the default of a parameter of a recipe to be linked
/// mentions a name that is no assignment, no constant and no parameter
/// before it, resolution fails with `UndefinedVariable`, though a later
/// parameter may bear that name.
pub proof fn lemma_default_out_of_scope_fails(
    globals: Globals,
    ignore_comments: bool,
    start: ResolvedRecipes,
    worklist: Seq<UnresolvedRecipe>,
    result: CompileResult<ResolvedRecipes>,
    w: int,
    i: int,
    k: int,
)
    requires
        distinct_keys(worklist),
        resolution_outcome(globals, ignore_comments, start, worklist, result),
        in_order(globals, ignore_comments, start, worklist, result),
        link_all(start, keys(start.local()), worklist) is Ok,
        0 <= w < worklist.len(),
        !has_key(start.local(), worklist[w].key_spec()),
        0 <= i < worklist[w].parameters@.len(),
        worklist[w].parameters@[i].default is Some,
        0 <= k < worklist[w].parameters@[i].default->Some_0.variables@.len(),
        ({
            let name = worklist[w].parameters@[i].default->Some_0.variables@[k].text();
            &&& !has_key(globals.assignments, name)
            &&& !has_key(globals.constants, name)
            &&& forall|h: int|
                0 <= h < i ==> (#[trigger] worklist[w].parameters@[h]).name.text() != name
        }),
    ensures
        result matches Err(error) && names_undefined(globals, error),
{
    lemma_default_sees_earlier_parameters(globals, ignore_comments, worklist[w].mentions(), i, k);
    lemma_undefined_variable_is_reported(globals, ignore_comments, start, worklist, result);
}

/// A worklist with a cycle among its dependencies has no resolution, so
/// resolution of it fails, and it fails in linking.
pub proof fn lemma_cycle_fails(
    globals: Globals,
    ignore_comments: bool,
    start: ResolvedRecipes,
    worklist: Seq<UnresolvedRecipe>,
    result: CompileResult<ResolvedRecipes>,
    circle: Seq<Seq<char>>,
)
    requires
        distinct_keys(worklist),
        resolution_outcome(globals, ignore_comments, start, worklist, result),
        is_cycle(start, worklist, circle),
    ensures
        result matches Err(error) && link_failure(start, worklist, error),
{
    match result {
        Ok(namespace) => {
            lemma_resolution_is_acyclic(start, worklist, namespace);
        },
        Err(error) => {
            if !link_failure(start, worklist, error) {
                let namespace = choose|namespace: ResolvedRecipes|
                    #[trigger] is_resolution(start, worklist, namespace) && scope_failure(
                        globals,
                        ignore_comments,
                        namespace.local(),
                        error,
                    );
                lemma_resolution_is_acyclic(start, worklist, namespace);
            }
        },
    }
}

/// Resolution yields a namespace exactly when linking, in its order, goes
/// through and every recipe is well scoped as it was declared.
pub proof fn lemma_success_in_order(
    globals: Globals,
    ignore_comments: bool,
    start: ResolvedRecipes,
    worklist: Seq<UnresolvedRecipe>,
    result: CompileResult<ResolvedRecipes>,
)
    requires
        distinct_keys(worklist),
        resolution_outcome(globals, ignore_comments, start, worklist, result),
        in_order(globals, ignore_comments, start, worklist, result),
    ensures
        result is Ok <==> link_all(start, keys(start.local()), worklist) is Ok && sources_scoped(
            globals,
            ignore_comments,
            start,
            worklist,
        ),
        linkable(start, worklist) ==> link_all(start, keys(start.local()), worklist) is Ok,
{
    lemma_success(globals, ignore_comments, start, worklist, result);
    match result {
        Ok(namespace) => {},
        Err(error) => {
            match link_all(start, keys(start.local()), worklist) {
                Ok(names) => {
                    let namespace = choose|namespace: ResolvedRecipes|
                        #[trigger] is_resolution(start, worklist, namespace) && keys(
                            namespace.local(),
                        ) == names && scope_failure(
                            globals,
                            ignore_comments,
                            namespace.local(),
                            error,
                        );
                    lemma_scope_failure_is_just(globals, ignore_comments, namespace.local(), error);
                    lemma_resolution_scoped(globals, ignore_comments, start, worklist, namespace);
                },
                Err(failure) => {
                    if !link_failure(start, worklist, error) {
                        let namespace = choose|namespace: ResolvedRecipes|
                            #[trigger] is_resolution(start, worklist, namespace) && scope_failure(
                                globals,
                                ignore_comments,
                                namespace.local(),
                                error,
                            );
                        lemma_scope_failure_is_just(
                            globals,
                            ignore_comments,
                            namespace.local(),
                            error,
                        );
                    }
                    lemma_link_failure_is_just(start, worklist, error);
                },
            }
        },
    }
}

/// A path that the namespace does not resolve before linking starts is not
/// reached then.
proof fn lemma_not_reached(start: ResolvedRecipes, path: Namepath)
    requires
        start.lookup_path(path@) is None,
    ensures
        !reached(start, keys(start.local()), path),
{
    path.lemma_nonempty();
    lemma_first_index(start.local(), path.leaf().text());
    lemma_keys_contains(start.local(), path.leaf().text());
}

/// A recipe that depends on itself: where the recipe that was declared
/// first names itself in its first dependency, resolution reports the
/// cycle of the recipe's name twice, for that recipe, at the dependency's
/// leaf.
pub proof fn lemma_self_dependency(
    globals: Globals,
    ignore_comments: bool,
    start: ResolvedRecipes,
    worklist: Seq<UnresolvedRecipe>,
    result: CompileResult<ResolvedRecipes>,
)
    requires
        in_order(globals, ignore_comments, start, worklist, result),
        worklist.len() >= 1,
        !has_key(start.local(), worklist[0].key_spec()),
        worklist[0].dependencies@.len() >= 1,
        start.lookup_path(worklist[0].dependencies@[0].recipe@) is None,
        worklist[0].dependencies@[0].recipe.leaf().text() == worklist[0].key_spec(),
    ensures
        result matches Err(error) && error.token == worklist[0].dependencies@[0].recipe.leaf()
            && match error.kind {
            CompileErrorKind::CircularRecipeDependency { recipe, circle } => recipe@
                == worklist[0].key_spec() && string_views(circle@) == seq![
                worklist[0].key_spec(),
                worklist[0].key_spec(),
            ],
            _ => false,
        },
{
    let a = worklist[0].key_spec();
    let path = worklist[0].dependencies@[0].recipe;
    let resolved = keys(start.local());
    let stack = Seq::<Seq<char>>::empty().push(a);
    lemma_keys_contains(start.local(), a);
    lemma_not_reached(start, path);
    assert(stack[0] == a);
    assert(stack.contains(a));
    assert(stack.index_of(a) == 0);
    assert(cycle_through(stack, 0, a) =~= seq![a, a]);
    let failure = LinkFailure::Circular { token: path.leaf(), recipe: a, circle: seq![a, a] };
    assert(link_dependencies(start, resolved, worklist.remove(0), stack, worklist[0], 0) == Err::<
        Linking,
        LinkFailure,
    >(failure));
    assert(link_recipe(start, resolved, worklist.remove(0), Seq::empty(), worklist[0]) == Err::<
        Linking,
        LinkFailure,
    >(failure));
    assert(link_all(start, resolved, worklist) == Err::<Seq<Seq<char>>, LinkFailure>(failure));
}

/// Two recipes that depend on each other: where the recipe that was
/// declared first names the second in its first dependency, and the
/// second names the first in its own, resolution reports the cycle that
/// starts and ends with the first recipe, which was met again, and holds
/// the second between them; it reports it for the second, at the leaf of
/// the dependency that closed the cycle.
pub proof fn lemma_mutual_dependency(
    globals: Globals,
    ignore_comments: bool,
    start: ResolvedRecipes,
    worklist: Seq<UnresolvedRecipe>,
    result: CompileResult<ResolvedRecipes>,
)
    requires
        in_order(globals, ignore_comments, start, worklist, result),
        worklist.len() == 2,
        worklist[0].key_spec() != worklist[1].key_spec(),
        !has_key(start.local(), worklist[0].key_spec()),
        !has_key(start.local(), worklist[1].key_spec()),
        worklist[0].dependencies@.len() >= 1,
        worklist[1].dependencies@.len() >= 1,
        start.lookup_path(worklist[0].dependencies@[0].recipe@) is None,
        start.lookup_path(worklist[1].dependencies@[0].recipe@) is None,
        worklist[0].dependencies@[0].recipe.leaf().text() == worklist[1].key_spec(),
        worklist[1].dependencies@[0].recipe.leaf().text() == worklist[0].key_spec(),
    ensures
        result matches Err(error) && error.token == worklist[1].dependencies@[0].recipe.leaf()
            && match error.kind {
            CompileErrorKind::CircularRecipeDependency { recipe, circle } => recipe@
                == worklist[1].key_spec() && string_views(circle@) == seq![
                worklist[0].key_spec(),
                worklist[1].key_spec(),
                worklist[0].key_spec(),
            ],
            _ => false,
        },
{
    let a = worklist[0].key_spec();
    let b = worklist[1].key_spec();
    let to_b = worklist[0].dependencies@[0].recipe;
    let to_a = worklist[1].dependencies@[0].recipe;
    let resolved = keys(start.local());
    let waiting = worklist.remove(0);
    let none = Seq::<UnresolvedRecipe>::empty();
    let on_a = Seq::<Seq<char>>::empty().push(a);
    let on_b = on_a.push(b);
    lemma_keys_contains(start.local(), a);
    lemma_keys_contains(start.local(), b);
    lemma_not_reached(start, to_b);
    lemma_not_reached(start, to_a);
    assert(waiting.len() == 1 && waiting[0] == worklist[1]);
    assert(waiting.remove(0) =~= none);
    assert(first_index(waiting, b) == 0) by {
        lemma_first_index(waiting, b);
    }
    assert(!on_a.contains(b));
    assert(on_b[0] == a);
    assert(on_b.contains(a));
    assert(on_b.index_of(a) == 0) by {
        let at = on_b.index_of(a);
        if at == 1 {
            assert(on_b[1] == b);
        }
    }
    assert(cycle_through(on_b, 0, a) =~= seq![a, b, a]);
    let failure = LinkFailure::Circular { token: to_a.leaf(), recipe: b, circle: seq![a, b, a] };
    assert(link_dependencies(start, resolved, none, on_b, worklist[1], 0) == Err::<
        Linking,
        LinkFailure,
    >(failure));
    assert(link_recipe(start, resolved, none, on_a, worklist[1]) == Err::<Linking, LinkFailure>(
        failure,
    ));
    assert(link_dependencies(start, resolved, waiting, on_a, worklist[0], 0) == Err::<
        Linking,
        LinkFailure,
    >(failure));
    assert(link_recipe(start, resolved, waiting, Seq::empty(), worklist[0]) == Err::<
        Linking,
        LinkFailure,
    >(failure));
    assert(link_all(start, resolved, worklist) == Err::<Seq<Seq<char>>, LinkFailure>(failure));
}

} // verus!
