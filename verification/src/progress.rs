//! The invariant of linking while it is under way, and the steps that keep
//! it.
//!
//! At any moment each recipe of the worklist is in one of three places: it
//! waits in `rest`, it is being linked and its name stands on `stack`, or it
//! is resolved and stands in the namespace.

use std::rc::Rc;
use vstd::prelude::*;
use crate::error::{CompileError, CompileErrorKind};
use crate::keyed::{
    distinct_keys, extends, first_index, has_key, keys, lemma_first_index, lemma_first_match,
    lemma_has_key_push, lemma_has_key_remove, lemma_keys_contains, lemma_lookup_extends, lookup,
    Keyed,
};
use crate::linking::{
    chained, circular_dependency_at, is_cycle, lemma_lookup_path_extends, link_failure,
    linked_at, pending, refers_at, refers_to, resolved_at, target_of, unknown_dependency_at,
};
use crate::name::{string_views, Namepath};
use crate::recipe::{built_from, Recipe, UnresolvedRecipe};
use crate::order::{cycle_through, reached};
use crate::resolved_recipes::ResolvedRecipes;

verus! {

/// A name on the stack belongs to a recipe of the worklist that neither
/// waits nor is resolved.
pub open spec fn under_way(
    worklist: Seq<UnresolvedRecipe>,
    local: Seq<Rc<Recipe>>,
    rest: Seq<UnresolvedRecipe>,
    name: Seq<char>,
) -> bool {
    has_key(worklist, name) && !has_key(local, name) && !has_key(rest, name)
}

/// The invariant of linking.
pub open spec fn linking(
    start: ResolvedRecipes,
    worklist: Seq<UnresolvedRecipe>,
    namespace: ResolvedRecipes,
    rest: Seq<UnresolvedRecipe>,
    stack: Seq<Seq<char>>,
) -> bool {
    &&& distinct_keys(worklist)
    &&& namespace.module_name() == start.module_name()
    &&& namespace.children() == start.children()
    &&& namespace.wf()
    &&& distinct_keys(namespace.local())
    &&& extends(start.local(), namespace.local())
    &&& forall|i: int|
        start.local().len() <= i < namespace.local().len() ==> #[trigger] resolved_at(
            start,
            worklist,
            namespace.local(),
            i,
        )
    &&& distinct_keys(rest)
    &&& forall|k: int|
        0 <= k < rest.len() ==> lookup(worklist, (#[trigger] rest[k]).key_spec()) == Some(rest[k])
    &&& forall|s: int|
        0 <= s < stack.len() ==> under_way(worklist, namespace.local(), rest, #[trigger] stack[s])
    &&& forall|s: int, t: int| 0 <= s < t < stack.len() ==> stack[s] != stack[t]
    &&& forall|s: int| 0 <= s < stack.len() - 1 ==> #[trigger] chained(start, worklist, stack, s)
}

/// Every recipe of the worklist waits, is under way or is resolved; but
/// for the one named `extra`, which has just been taken from `rest`.
pub open spec fn covered(
    worklist: Seq<UnresolvedRecipe>,
    local: Seq<Rc<Recipe>>,
    rest: Seq<UnresolvedRecipe>,
    stack: Seq<Seq<char>>,
    extra: Option<Seq<char>>,
) -> bool {
    forall|w: int|
        0 <= w < worklist.len() ==> {
            ||| has_key(rest, (#[trigger] worklist[w]).key_spec())
            ||| has_key(local, worklist[w].key_spec())
            ||| stack.contains(worklist[w].key_spec())
            ||| extra == Some(worklist[w].key_spec())
        }
}

/// From (`local0`, `rest0`) to (`local1`, `rest1`) recipes were only added
/// to the namespace, and none was added to the waiting ones.
pub open spec fn grown(
    local0: Seq<Rc<Recipe>>,
    rest0: Seq<UnresolvedRecipe>,
    local1: Seq<Rc<Recipe>>,
    rest1: Seq<UnresolvedRecipe>,
) -> bool {
    &&& extends(local0, local1)
    &&& rest1.len() <= rest0.len()
}

/// The namespace finds a recipe under a path exactly when the path leads
/// to a recipe that is resolved by now.
pub proof fn lemma_reached(start: ResolvedRecipes, namespace: ResolvedRecipes, path: Namepath)
    requires
        namespace.children() == start.children(),
        extends(start.local(), namespace.local()),
    ensures
        namespace.lookup_path(path@) is Some <==> reached(start, keys(namespace.local()), path),
{
    path.lemma_nonempty();
    lemma_lookup_path_extends(start, namespace, path@);
    lemma_first_index(namespace.local(), path.leaf().text());
    lemma_keys_contains(namespace.local(), path.leaf().text());
}

/// On a stack without repetitions a name stands at one index only.
pub proof fn lemma_index_on_stack(stack: Seq<Seq<char>>, at: int)
    requires
        0 <= at < stack.len(),
        forall|s: int, t: int| 0 <= s < t < stack.len() ==> stack[s] != stack[t],
    ensures
        stack.contains(stack[at]),
        stack.index_of(stack[at]) == at,
{
    assert(stack.contains(stack[at]));
    let found = stack.index_of(stack[at]);
    if found < at {
        assert(stack[found] != stack[at]);
    }
    if at < found {
        assert(stack[at] != stack[found]);
    }
}

/// A recipe that was taken from the waiting ones and is not resolved goes
/// on the stack.
pub proof fn lemma_enter(
    start: ResolvedRecipes,
    worklist: Seq<UnresolvedRecipe>,
    namespace: ResolvedRecipes,
    rest: Seq<UnresolvedRecipe>,
    stack: Seq<Seq<char>>,
    name: Seq<char>,
)
    requires
        linking(start, worklist, namespace, rest, stack),
        covered(worklist, namespace.local(), rest, stack, Some(name)),
        under_way(worklist, namespace.local(), rest, name),
        !stack.contains(name),
        stack.len() > 0 ==> refers_to(start, worklist, stack.last(), name),
    ensures
        linking(start, worklist, namespace, rest, stack.push(name)),
        covered(worklist, namespace.local(), rest, stack.push(name), None),
        !has_key(start.local(), name),
{
    let longer = stack.push(name);
    lemma_lookup_extends(start.local(), namespace.local(), name);
    assert forall|s: int| 0 <= s < longer.len() implies under_way(
        worklist,
        namespace.local(),
        rest,
        #[trigger] longer[s],
    ) by {
        if s < stack.len() {
            assert(longer[s] == stack[s]);
        }
    }
    assert forall|s: int, t: int| 0 <= s < t < longer.len() implies longer[s] != longer[t] by {
        assert(longer[s] == stack[s]);
        if t < stack.len() {
            assert(longer[t] == stack[t]);
        } else {
            assert(stack.contains(stack[s]));
        }
    }
    assert forall|s: int| 0 <= s < longer.len() - 1 implies #[trigger] chained(
        start,
        worklist,
        longer,
        s,
    ) by {
        assert(longer[s] == stack[s]);
        if s + 1 < stack.len() {
            assert(longer[s + 1] == stack[s + 1]);
            assert(chained(start, worklist, stack, s));
        } else {
            assert(stack[s] == stack.last());
            assert(longer[s + 1] == name);
        }
    }
    assert forall|w: int| 0 <= w < worklist.len() implies {
        ||| has_key(rest, (#[trigger] worklist[w]).key_spec())
        ||| has_key(namespace.local(), worklist[w].key_spec())
        ||| longer.contains(worklist[w].key_spec())
        ||| None::<Seq<char>> == Some(worklist[w].key_spec())
    } by {
        let key = worklist[w].key_spec();
        if stack.contains(key) {
            let s = choose|s: int| 0 <= s < stack.len() && stack[s] == key;
            assert(longer[s] == key);
        } else if key == name {
            assert(longer[stack.len() as int] == key);
        }
    }
}

/// What the namespace finds under a path is the target of a dependency
/// with that path.
pub proof fn lemma_found(
    start: ResolvedRecipes,
    namespace: ResolvedRecipes,
    path: Namepath,
    found: Rc<Recipe>,
)
    requires
        namespace.children() == start.children(),
        extends(start.local(), namespace.local()),
        namespace.lookup_path(path@) == Some(found),
    ensures
        target_of(start, path, found, namespace.local(), namespace.local().len() as int),
{
    lemma_lookup_path_extends(start, namespace, path@);
    if start.lookup_path(path@) is None {
        lemma_first_index(namespace.local(), path.leaf().text());
        let k = first_index(namespace.local(), path.leaf().text());
        assert(namespace.local()[k] == found);
    }
}

/// A target stays a target when recipes are added to the namespace.
pub proof fn lemma_target_extends(
    start: ResolvedRecipes,
    path: Namepath,
    target: Rc<Recipe>,
    local: Seq<Rc<Recipe>>,
    longer: Seq<Rc<Recipe>>,
)
    requires
        target_of(start, path, target, local, local.len() as int),
        extends(local, longer),
    ensures
        target_of(start, path, target, longer, longer.len() as int),
{
    if start.lookup_path(path@) is None {
        let k = choose|k: int|
            0 <= k < local.len() && k < local.len() && #[trigger] local[k] == target && local[k].key_spec()
                == path.leaf().text();
        assert(longer[k] == local[k]);
    }
}

/// The recipe that the namespace holds under a name is the target of a
/// dependency whose path `start` does not resolve and whose leaf is that
/// name.
pub proof fn lemma_resolved_target(
    start: ResolvedRecipes,
    path: Namepath,
    target: Rc<Recipe>,
    local: Seq<Rc<Recipe>>,
)
    requires
        start.lookup_path(path@) is None,
        lookup(local, path.leaf().text()) == Some(target),
    ensures
        target_of(start, path, target, local, local.len() as int),
{
    lemma_first_index(local, path.leaf().text());
    let k = first_index(local, path.leaf().text());
    assert(local[k] == target);
}

/// A dependency of the recipe on top of the stack that names a recipe on
/// the stack closes a cycle.
pub proof fn lemma_cycle(
    start: ResolvedRecipes,
    worklist: Seq<UnresolvedRecipe>,
    namespace: ResolvedRecipes,
    rest: Seq<UnresolvedRecipe>,
    stack: Seq<Seq<char>>,
    at: int,
)
    requires
        linking(start, worklist, namespace, rest, stack),
        0 <= at < stack.len(),
        refers_to(start, worklist, stack.last(), stack[at]),
    ensures
        is_cycle(start, worklist, cycle_through(stack, at, stack[at])),
        cycle_through(stack, at, stack[at]).len() == stack.len() - at + 1,
        cycle_through(stack, at, stack[at])[stack.len() - at - 1] == stack.last(),
        cycle_through(stack, at, stack[at])[0] == stack[at],
{
    let circle = cycle_through(stack, at, stack[at]);
    let n = stack.len() - at;
    assert(circle.len() == n + 1);
    assert forall|k: int| 0 <= k < n implies circle[k] == stack[at + k] by {}
    assert(circle[n] == stack[at]);
    lemma_lookup_extends(start.local(), namespace.local(), stack[at]);
    assert(under_way(worklist, namespace.local(), rest, stack[at]));
    assert(pending(start, worklist, stack[at]));
    assert forall|k: int| 0 <= k < circle.len() - 1 implies #[trigger] chained(
        start,
        worklist,
        circle,
        k,
    ) by {
        assert(circle[k] == stack[at + k]);
        if k + 1 < n {
            assert(circle[k + 1] == stack[at + k + 1]);
            assert(chained(start, worklist, stack, at + k));
        } else {
            assert(stack[at + k] == stack.last());
            assert(circle[k + 1] == stack[at]);
        }
    }
    assert forall|k: int, l: int| 0 <= k < l < circle.len() - 1 implies circle[k] != circle[l] by {
        assert(circle[k] == stack[at + k]);
        assert(circle[l] == stack[at + l]);
    }
}

/// Taking a recipe from the waiting ones keeps the invariant, and leaves
/// that recipe as the one that is not covered.
pub proof fn lemma_descend(
    start: ResolvedRecipes,
    worklist: Seq<UnresolvedRecipe>,
    namespace: ResolvedRecipes,
    rest: Seq<UnresolvedRecipe>,
    stack: Seq<Seq<char>>,
    at: int,
)
    requires
        linking(start, worklist, namespace, rest, stack),
        covered(worklist, namespace.local(), rest, stack, None),
        0 <= at < rest.len(),
    ensures
        linking(start, worklist, namespace, rest.remove(at), stack),
        covered(worklist, namespace.local(), rest.remove(at), stack, Some(rest[at].key_spec())),
        lookup(worklist, rest[at].key_spec()) == Some(rest[at]),
        !has_key(rest.remove(at), rest[at].key_spec()),
        has_key(worklist, rest[at].key_spec()),
{
    let taken = rest.remove(at);
    crate::keyed::lemma_distinct_remove(rest, at);
    lemma_has_key_remove(rest, at, rest[at].key_spec());
    lemma_first_index(worklist, rest[at].key_spec());
    assert forall|k: int| 0 <= k < taken.len() implies lookup(
        worklist,
        (#[trigger] taken[k]).key_spec(),
    ) == Some(taken[k]) by {
        let k0 = if k < at { k } else { k + 1 };
        assert(taken[k] == rest[k0]);
    }
    assert forall|s: int| 0 <= s < stack.len() implies under_way(
        worklist,
        namespace.local(),
        taken,
        #[trigger] stack[s],
    ) by {
        lemma_has_key_remove(rest, at, stack[s]);
    }
    assert forall|w: int| 0 <= w < worklist.len() implies {
        ||| has_key(taken, (#[trigger] worklist[w]).key_spec())
        ||| has_key(namespace.local(), worklist[w].key_spec())
        ||| stack.contains(worklist[w].key_spec())
        ||| Some(rest[at].key_spec()) == Some(worklist[w].key_spec())
    } by {
        lemma_has_key_remove(rest, at, worklist[w].key_spec());
    }
}

/// A dependency of the recipe on top of the stack that the namespace does
/// not resolve is a reference from that recipe to the dependency's leaf.
pub proof fn lemma_refers(
    start: ResolvedRecipes,
    worklist: Seq<UnresolvedRecipe>,
    namespace: ResolvedRecipes,
    rest: Seq<UnresolvedRecipe>,
    stack: Seq<Seq<char>>,
    recipe: UnresolvedRecipe,
    j: int,
)
    requires
        linking(start, worklist, namespace, rest, stack),
        stack.len() > 0,
        stack.last() == recipe.key_spec(),
        lookup(worklist, recipe.key_spec()) == Some(recipe),
        0 <= j < recipe.dependencies@.len(),
        namespace.lookup_path(recipe.dependencies@[j].recipe@) is None,
    ensures
        start.lookup_path(recipe.dependencies@[j].recipe@) is None,
        refers_to(
            start,
            worklist,
            stack.last(),
            recipe.dependencies@[j].recipe.leaf().text(),
        ),
{
    let path = recipe.dependencies@[j].recipe;
    lemma_first_index(worklist, recipe.key_spec());
    let w = first_index(worklist, recipe.key_spec());
    assert(worklist[w] == recipe);
    assert(under_way(worklist, namespace.local(), rest, stack[stack.len() - 1]));
    lemma_lookup_extends(start.local(), namespace.local(), recipe.key_spec());
    lemma_lookup_path_extends(start, namespace, path@);
    assert(refers_at(start, worklist, w, j, stack.last(), path.leaf().text()));
}

/// A dependency that is found nowhere is justly reported as unknown.
pub proof fn lemma_unknown(
    start: ResolvedRecipes,
    worklist: Seq<UnresolvedRecipe>,
    namespace: ResolvedRecipes,
    rest: Seq<UnresolvedRecipe>,
    stack: Seq<Seq<char>>,
    recipe: UnresolvedRecipe,
    j: int,
    error: CompileError,
)
    requires
        linking(start, worklist, namespace, rest, stack),
        covered(worklist, namespace.local(), rest, stack, None),
        stack.len() > 0,
        stack.last() == recipe.key_spec(),
        lookup(worklist, recipe.key_spec()) == Some(recipe),
        0 <= j < recipe.dependencies@.len(),
        namespace.lookup_path(recipe.dependencies@[j].recipe@) is None,
        !stack.contains(recipe.dependencies@[j].recipe.leaf().text()),
        !has_key(rest, recipe.dependencies@[j].recipe.leaf().text()),
        error.token == recipe.dependencies@[j].recipe.leaf(),
        match error.kind {
            CompileErrorKind::UnknownDependency { recipe: dependent, unknown } => dependent@
                == recipe.key_spec() && unknown@ == recipe.dependencies@[j].recipe@,
            _ => false,
        },
    ensures
        link_failure(start, worklist, error),
{
    let path = recipe.dependencies@[j].recipe;
    let leaf = path.leaf().text();
    lemma_first_index(worklist, recipe.key_spec());
    let w = first_index(worklist, recipe.key_spec());
    assert(worklist[w] == recipe);
    assert(under_way(worklist, namespace.local(), rest, stack[stack.len() - 1]));
    lemma_lookup_extends(start.local(), namespace.local(), recipe.key_spec());
    lemma_lookup_path_extends(start, namespace, path@);
    assert(stack.contains(stack[stack.len() - 1]));
    if path@.len() == 1 && has_key(worklist, leaf) {
        let v = choose|v: int| 0 <= v < worklist.len() && #[trigger] worklist[v].key_spec() == leaf;
        lemma_first_index(namespace.local(), leaf);
        assert(false);
    }
    assert(unknown_dependency_at(start, worklist, error, w, j));
    assert(worklist[w].dependencies@[j] == recipe.dependencies@[j]);
}

/// A dependency that leads back onto the stack is justly reported as a
/// cycle.
pub proof fn lemma_circular(
    start: ResolvedRecipes,
    worklist: Seq<UnresolvedRecipe>,
    namespace: ResolvedRecipes,
    rest: Seq<UnresolvedRecipe>,
    stack: Seq<Seq<char>>,
    recipe: UnresolvedRecipe,
    j: int,
    at: int,
    error: CompileError,
)
    requires
        linking(start, worklist, namespace, rest, stack),
        stack.len() > 0,
        stack.last() == recipe.key_spec(),
        lookup(worklist, recipe.key_spec()) == Some(recipe),
        0 <= j < recipe.dependencies@.len(),
        namespace.lookup_path(recipe.dependencies@[j].recipe@) is None,
        0 <= at < stack.len(),
        stack[at] == recipe.dependencies@[j].recipe.leaf().text(),
        error.token == recipe.dependencies@[j].recipe.leaf(),
        match error.kind {
            CompileErrorKind::CircularRecipeDependency { recipe: last, circle } => last@
                == recipe.key_spec() && string_views(circle@) == cycle_through(stack, at, stack[at]),
            _ => false,
        },
    ensures
        link_failure(start, worklist, error),
{
    let path = recipe.dependencies@[j].recipe;
    lemma_first_index(worklist, recipe.key_spec());
    let w = first_index(worklist, recipe.key_spec());
    assert(worklist[w] == recipe);
    assert(under_way(worklist, namespace.local(), rest, stack[stack.len() - 1]));
    lemma_lookup_extends(start.local(), namespace.local(), recipe.key_spec());
    lemma_lookup_path_extends(start, namespace, path@);
    assert(refers_at(start, worklist, w, j, stack.last(), stack[at]));
    lemma_cycle(start, worklist, namespace, rest, stack, at);
    assert(circular_dependency_at(start, worklist, error, w, j));
    assert(worklist[w].dependencies@[j] == recipe.dependencies@[j]);
}

/// The recipe on top of the stack, linked to the targets of its
/// dependencies, leaves the stack and enters the namespace.
pub proof fn lemma_finish(
    start: ResolvedRecipes,
    worklist: Seq<UnresolvedRecipe>,
    before: ResolvedRecipes,
    after: ResolvedRecipes,
    rest: Seq<UnresolvedRecipe>,
    stack: Seq<Seq<char>>,
    recipe: UnresolvedRecipe,
    handle: Rc<Recipe>,
    targets: Seq<Rc<Recipe>>,
)
    requires
        linking(start, worklist, before, rest, stack.push(recipe.key_spec())),
        covered(worklist, before.local(), rest, stack.push(recipe.key_spec()), None),
        lookup(worklist, recipe.key_spec()) == Some(recipe),
        built_from(*handle, recipe, targets),
        forall|j: int|
            0 <= j < targets.len() ==> target_of(
                start,
                recipe.dependencies@[j].recipe,
                #[trigger] targets[j],
                before.local(),
                before.local().len() as int,
            ),
        after.module_name() == before.module_name(),
        after.children() == before.children(),
        after.wf(),
        distinct_keys(after.local()),
        after.local() == before.local().push(handle),
    ensures
        linking(start, worklist, after, rest, stack),
        covered(worklist, after.local(), rest, stack, None),
        lookup(after.local(), recipe.key_spec()) == Some(handle),
{
    let name = recipe.key_spec();
    let longer = stack.push(name);
    let old_local = before.local();
    let new_local = after.local();
    let n = old_local.len() as int;
    assert(longer[stack.len() as int] == name);
    assert(under_way(worklist, old_local, rest, longer[stack.len() as int]));
    assert(new_local[n] == handle);
    assert(handle.key_spec() == name);
    assert forall|i: int| 0 <= i < n implies #[trigger] new_local[i].key_spec() != name by {
        assert(new_local[i] == old_local[i]);
    }
    lemma_first_match(new_local, name, n);
    assert forall|i: int| 0 <= i < start.local().len() implies #[trigger] new_local[i]
        == start.local()[i] by {
        assert(old_local[i] == start.local()[i]);
        assert(new_local[i] == old_local[i]);
    }
    assert forall|i: int| start.local().len() <= i < new_local.len() implies #[trigger] resolved_at(
        start,
        worklist,
        new_local,
        i,
    ) by {
        if i < n {
            assert(resolved_at(start, worklist, old_local, i));
            assert(new_local[i] == old_local[i]);
            let unresolved = lookup(worklist, old_local[i].key_spec())->Some_0;
            assert(linked_at(start, unresolved, old_local, i));
            assert forall|j: int| 0 <= j < unresolved.dependencies@.len() implies target_of(
                start,
                unresolved.dependencies@[j].recipe,
                (#[trigger] new_local[i].dependencies@[j]).recipe,
                new_local,
                i,
            ) by {
                let path = unresolved.dependencies@[j].recipe;
                let target = old_local[i].dependencies@[j].recipe;
                assert(target_of(start, path, target, old_local, i));
                if start.lookup_path(path@) is None {
                    let k = choose|k: int|
                        0 <= k < i && k < old_local.len() && #[trigger] old_local[k] == target
                            && old_local[k].key_spec() == path.leaf().text();
                    assert(new_local[k] == old_local[k]);
                }
            }
            assert(linked_at(start, unresolved, new_local, i));
        } else {
            assert forall|j: int| 0 <= j < recipe.dependencies@.len() implies target_of(
                start,
                recipe.dependencies@[j].recipe,
                (#[trigger] new_local[n].dependencies@[j]).recipe,
                new_local,
                n,
            ) by {
                let path = recipe.dependencies@[j].recipe;
                assert(target_of(start, path, targets[j], old_local, n));
                if start.lookup_path(path@) is None {
                    let k = choose|k: int|
                        0 <= k < n && k < old_local.len() && #[trigger] old_local[k] == targets[j]
                            && old_local[k].key_spec() == path.leaf().text();
                    assert(new_local[k] == old_local[k]);
                }
            }
            assert(linked_at(start, recipe, new_local, n));
        }
    }
    assert forall|s: int| 0 <= s < stack.len() implies under_way(
        worklist,
        new_local,
        rest,
        #[trigger] stack[s],
    ) by {
        assert(longer[s] == stack[s]);
        assert(under_way(worklist, old_local, rest, longer[s]));
        assert(longer[s] != longer[stack.len() as int]);
        lemma_has_key_push(old_local, handle, stack[s]);
    }
    assert forall|s: int, t: int| 0 <= s < t < stack.len() implies stack[s] != stack[t] by {
        assert(longer[s] == stack[s]);
        assert(longer[t] == stack[t]);
    }
    assert forall|s: int| 0 <= s < stack.len() - 1 implies #[trigger] chained(
        start,
        worklist,
        stack,
        s,
    ) by {
        assert(longer[s] == stack[s]);
        assert(longer[s + 1] == stack[s + 1]);
        assert(chained(start, worklist, longer, s));
    }
    assert forall|w: int| 0 <= w < worklist.len() implies {
        ||| has_key(rest, (#[trigger] worklist[w]).key_spec())
        ||| has_key(new_local, worklist[w].key_spec())
        ||| stack.contains(worklist[w].key_spec())
        ||| None::<Seq<char>> == Some(worklist[w].key_spec())
    } by {
        let key = worklist[w].key_spec();
        lemma_has_key_push(old_local, handle, key);
        if longer.contains(key) {
            let s = choose|s: int| 0 <= s < longer.len() && longer[s] == key;
            if s < stack.len() {
                assert(stack[s] == key);
            }
        }
    }
}

} // verus!
