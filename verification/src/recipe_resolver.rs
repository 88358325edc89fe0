//! The resolver of one module: it links the recipes of a worklist into a
//! namespace, and then checks the scope of every variable they mention.

use std::rc::Rc;
use vstd::prelude::*;
use crate::error::{CompileErrorKind, CompileResult};
use crate::keyed::{
    distinct_keys, find, first_index, has_key, keys, lemma_distinct_match, lemma_first_index,
    lemma_has_key_push, lemma_keys_contains, lemma_keys_push, lookup, same_text, Keyed,
};
use crate::laws::lemma_success;
use crate::linking::{is_resolution, link_failure, linkable, refers_to, target_of};
use crate::name::{lemma_string_views_push, string_views, Name};
use crate::order::{
    cycle_through, link_all, link_dependencies, link_recipe, reports, LinkFailure,
};
use crate::progress::{
    covered, grown, lemma_circular, lemma_descend, lemma_enter, lemma_finish, lemma_found,
    lemma_index_on_stack, lemma_reached, lemma_refers, lemma_resolved_target,
    lemma_target_extends, lemma_unknown, linking, under_way,
};
use crate::recipe::{share, Recipe, UnresolvedRecipe};
use crate::resolved_recipes::ResolvedRecipes;
use crate::scope::{
    argument_offence, argument_offence_at, arguments_scoped, body_offence, body_offence_at,
    body_scoped, default_offence, default_scoped, defaults_scoped, defined, expression_scoped,
    expressions_scoped, fragments_scoped, line_checked, line_scoped, offence, recipes_scoped,
    scope_failure, undefined_at, undefined_in, well_scoped, Globals,
};
use crate::syntax::{Assignment, Constant, Expression, Fragment, Parameter, Settings};
use crate::table::Table;

verus! {

/// Where `name` first stands on the stack, if it stands there.
fn position_on_stack(stack: &Vec<String>, name: &str) -> (position: Option<usize>)
    ensures
        match position {
            Some(at) => {
                &&& at < stack@.len()
                &&& string_views(stack@)[at as int] == name@
                &&& forall|h: int| 0 <= h < at ==> #[trigger] string_views(stack@)[h] != name@
            },
            None => !string_views(stack@).contains(name@),
        },
{
    let mut at: usize = 0;
    while at < stack.len()
        invariant
            at <= stack@.len(),
            forall|h: int| 0 <= h < at ==> #[trigger] string_views(stack@)[h] != name@,
        decreases stack@.len() - at,
    {
        if same_text(stack[at].as_str(), name) {
            return Some(at);
        }
        at += 1;
    }
    None
}

/// The names of a cycle, copied from the stack.
fn circle_from(stack: &Vec<String>, at: usize, name: &str) -> (circle: Vec<String>)
    requires
        at <= stack@.len(),
    ensures
        string_views(circle@) == cycle_through(string_views(stack@), at as int, name@),
{
    let mut circle: Vec<String> = Vec::new();
    let mut i: usize = at;
    while i < stack.len()
        invariant
            at <= i <= stack@.len(),
            string_views(circle@) == string_views(stack@).subrange(at as int, i as int),
        decreases stack@.len() - i,
    {
        proof {
            lemma_string_views_push(circle@, stack@[i as int]);
        }
        circle.push(stack[i].clone());
        assert(string_views(circle@) =~= string_views(stack@).subrange(at as int, i + 1));
        i += 1;
    }
    let last = name.to_owned();
    proof {
        lemma_string_views_push(circle@, last);
    }
    circle.push(last);
    assert(string_views(circle@) =~= cycle_through(string_views(stack@), at as int, name@));
    circle
}

/// Every recipe that resolution has to check is well scoped as it was
/// declared: the recipes that `start` holds already, and the recipes of the
/// worklist that `start` does not hold.
pub open spec fn sources_scoped(
    globals: Globals,
    ignore_comments: bool,
    start: ResolvedRecipes,
    worklist: Seq<UnresolvedRecipe>,
) -> bool {
    &&& recipes_scoped(globals, ignore_comments, start.local(), start.local().len() as int)
    &&& forall|w: int|
        0 <= w < worklist.len() && !has_key(start.local(), worklist[w].key_spec()) ==> well_scoped(
            globals,
            ignore_comments,
            (#[trigger] worklist[w]).mentions(),
        )
}

/// What resolution may answer for a worklist over the namespace `start`.
///
/// A namespace that is returned is a resolution of the worklist in which
/// every recipe is well scoped. An error that is returned is a failure of
/// linking that the worklist justifies, or else the worklist has a
/// resolution, and the error reports the first undefined variable of the
/// first recipe in it that has one.
pub open spec fn resolution_outcome(
    globals: Globals,
    ignore_comments: bool,
    start: ResolvedRecipes,
    worklist: Seq<UnresolvedRecipe>,
    result: CompileResult<ResolvedRecipes>,
) -> bool {
    match result {
        Ok(namespace) => {
            &&& is_resolution(start, worklist, namespace)
            &&& recipes_scoped(
                globals,
                ignore_comments,
                namespace.local(),
                namespace.local().len() as int,
            )
        },
        Err(error) => {
            ||| link_failure(start, worklist, error)
            ||| exists|namespace: ResolvedRecipes|
                #[trigger] is_resolution(start, worklist, namespace) && scope_failure(
                    globals,
                    ignore_comments,
                    namespace.local(),
                    error,
                )
        },
    }
}

/// Which of the answers that a worklist justifies resolution gives:
/// linking proceeds in the order that `link_all` lays down. Where it fails
/// there, resolution reports that failure. Where it succeeds, the
/// namespace holds the recipes in the order that it names, and an
/// undefined variable is reported for the first recipe in that order that
/// mentions one.
pub open spec fn in_order(
    globals: Globals,
    ignore_comments: bool,
    start: ResolvedRecipes,
    worklist: Seq<UnresolvedRecipe>,
    result: CompileResult<ResolvedRecipes>,
) -> bool {
    match link_all(start, keys(start.local()), worklist) {
        Err(failure) => result matches Err(error) && reports(error, failure),
        Ok(names) => match result {
            Ok(namespace) => keys(namespace.local()) == names,
            Err(error) => exists|namespace: ResolvedRecipes|
                #[trigger] is_resolution(start, worklist, namespace) && keys(namespace.local())
                    == names && scope_failure(
                    globals,
                    ignore_comments,
                    namespace.local(),
                    error,
                ),
        },
    }
}

/// The state of one run of resolution.
pub struct RecipeResolver<'run> {
    assignments: &'run Table<Assignment>,
    constants: &'run Table<Constant>,
    resolved_recipes: ResolvedRecipes,
    unresolved_recipes: Table<UnresolvedRecipe>,
}

impl<'run> RecipeResolver<'run> {
    /// The names that this run takes as defined everywhere.
    pub closed spec fn globals(&self) -> Globals {
        Globals { assignments: self.assignments@, constants: self.constants@ }
    }

    /// Resolves the recipes of one module.
    ///
    /// The worklist is linked first. Its recipes are taken in the order of
    /// their declaration; each one is linked after the recipes of the
    /// worklist that it depends on, and put into `resolved_recipes`, which
    /// holds the namespaces of the submodules. Then every variable that a
    /// recipe of the namespace mentions is checked against its scope,
    /// recipe by recipe in the order of the namespace. The first failure
    /// ends resolution and is returned.
    ///
    /// The contract says what the answer means (`resolution_outcome`), which
    /// answer is given where the worklist justifies several (`in_order`),
    /// and on which worklists a namespace is owed.
    pub fn resolve_recipes(
        assignments: &'run Table<Assignment>,
        constants: &'run Table<Constant>,
        settings: &Settings,
        unresolved_recipes: Table<UnresolvedRecipe>,
        resolved_recipes: ResolvedRecipes,
    ) -> (result: CompileResult<ResolvedRecipes>)
        requires
            unresolved_recipes.wf(),
            resolved_recipes.wf(),
        ensures
            resolution_outcome(
                (Globals { assignments: assignments@, constants: constants@ }),
                settings.ignore_comments,
                resolved_recipes,
                unresolved_recipes@,
                result,
            ),
            in_order(
                (Globals { assignments: assignments@, constants: constants@ }),
                settings.ignore_comments,
                resolved_recipes,
                unresolved_recipes@,
                result,
            ),
            linkable(resolved_recipes, unresolved_recipes@) && sources_scoped(
                (Globals { assignments: assignments@, constants: constants@ }),
                settings.ignore_comments,
                resolved_recipes,
                unresolved_recipes@,
            ) ==> result is Ok,
    {
        let ghost start = resolved_recipes;
        let ghost worklist = unresolved_recipes@;
        let ghost globals = Globals { assignments: assignments@, constants: constants@ };
        let mut resolver = RecipeResolver {
            assignments,
            constants,
            resolved_recipes,
            unresolved_recipes,
        };
        proof {
            start.lemma_wf();
            assert forall|k: int| 0 <= k < worklist.len() implies lookup(
                worklist,
                (#[trigger] worklist[k]).key_spec(),
            ) == Some(worklist[k]) by {
                lemma_distinct_match(worklist, k);
            }
        }
        while resolver.unresolved_recipes.len() > 0
            invariant
                start == resolved_recipes,
                worklist == unresolved_recipes@,
                globals == (Globals { assignments: assignments@, constants: constants@ }),
                resolver.assignments == assignments,
                resolver.constants == constants,
                resolver.unresolved_recipes.wf(),
                linking(
                    start,
                    worklist,
                    resolver.resolved_recipes,
                    resolver.unresolved_recipes@,
                    Seq::<Seq<char>>::empty(),
                ),
                link_all(start, keys(start.local()), worklist) == link_all(
                    start,
                    keys(resolver.resolved_recipes.local()),
                    resolver.unresolved_recipes@,
                ),
                covered(
                    worklist,
                    resolver.resolved_recipes.local(),
                    resolver.unresolved_recipes@,
                    Seq::<Seq<char>>::empty(),
                    None,
                ),
            decreases resolver.unresolved_recipes@.len(),
        {
            let ghost rest = resolver.unresolved_recipes@;
            proof {
                lemma_descend(
                    start,
                    worklist,
                    resolver.resolved_recipes,
                    rest,
                    Seq::<Seq<char>>::empty(),
                    0,
                );
            }
            let unresolved = resolver.unresolved_recipes.pop().unwrap();
            let mut stack: Vec<String> = Vec::new();
            assert(string_views(stack@) =~= Seq::<Seq<char>>::empty());
            match resolver.resolve_recipe(&mut stack, unresolved, Ghost(start), Ghost(worklist)) {
                Ok(_) => {},
                Err(error) => {
                    proof {
                        lemma_success(
                            globals,
                            settings.ignore_comments,
                            start,
                            worklist,
                            Err(error),
                        );
                    }
                    return Err(error);
                },
            }
        }
        assert(is_resolution(start, worklist, resolver.resolved_recipes));
        assert(resolver.globals() == globals);

        let recipes = resolver.resolved_recipes.values_here();
        let mut i: usize = 0;
        while i < recipes.len()
            invariant
                i <= recipes@.len(),
                distinct_keys(worklist),
                start == resolved_recipes,
                worklist == unresolved_recipes@,
                globals == (Globals { assignments: assignments@, constants: constants@ }),
                recipes@ == resolver.resolved_recipes.local(),
                link_all(start, keys(start.local()), worklist) == Ok::<Seq<Seq<char>>, LinkFailure>(
                    keys(recipes@),
                ),
                resolver.globals() == globals,
                is_resolution(start, worklist, resolver.resolved_recipes),
                recipes_scoped(globals, settings.ignore_comments, recipes@, i as int),
            decreases recipes@.len() - i,
        {
            match resolver.resolve_variables(settings, &recipes[i]) {
                Ok(_) => {},
                Err(error) => {
                    assert(scope_failure(globals, settings.ignore_comments, recipes@, error));
                    proof {
                        lemma_success(
                            globals,
                            settings.ignore_comments,
                            start,
                            worklist,
                            Err(error),
                        );
                    }
                    return Err(error);
                },
            }
            i += 1;
        }
        Ok(resolver.resolved_recipes)
    }

    /// Links one recipe that was taken from the worklist, and before it
    /// the recipes of the worklist that it depends on. `stack` holds the
    /// names of the recipes whose linking led here.
    fn resolve_recipe(
        &mut self,
        stack: &mut Vec<String>,
        recipe: UnresolvedRecipe,
        Ghost(start): Ghost<ResolvedRecipes>,
        Ghost(worklist): Ghost<Seq<UnresolvedRecipe>>,
    ) -> (result: CompileResult<Rc<Recipe>>)
        requires
            old(self).unresolved_recipes.wf(),
            linking(
                start,
                worklist,
                old(self).resolved_recipes,
                old(self).unresolved_recipes@,
                string_views(old(stack)@),
            ),
            covered(
                worklist,
                old(self).resolved_recipes.local(),
                old(self).unresolved_recipes@,
                string_views(old(stack)@),
                Some(recipe.key_spec()),
            ),
            lookup(worklist, recipe.key_spec()) == Some(recipe),
            !has_key(old(self).unresolved_recipes@, recipe.key_spec()),
            !string_views(old(stack)@).contains(recipe.key_spec()),
            old(stack)@.len() > 0 ==> refers_to(
                start,
                worklist,
                string_views(old(stack)@).last(),
                recipe.key_spec(),
            ),
        ensures
            final(self).assignments == old(self).assignments,
            final(self).constants == old(self).constants,
            match result {
                Ok(handle) => {
                    &&& final(stack)@ == old(stack)@
                    &&& final(self).unresolved_recipes.wf()
                    &&& linking(
                        start,
                        worklist,
                        final(self).resolved_recipes,
                        final(self).unresolved_recipes@,
                        string_views(old(stack)@),
                    )
                    &&& covered(
                        worklist,
                        final(self).resolved_recipes.local(),
                        final(self).unresolved_recipes@,
                        string_views(old(stack)@),
                        None,
                    )
                    &&& final(self).resolved_recipes.lookup_local(recipe.key_spec()) == Some(handle)
                    &&& grown(
                        old(self).resolved_recipes.local(),
                        old(self).unresolved_recipes@,
                        final(self).resolved_recipes.local(),
                        final(self).unresolved_recipes@,
                    )
                },
                Err(error) => link_failure(start, worklist, error),
            },
            match link_recipe(
                start,
                keys(old(self).resolved_recipes.local()),
                old(self).unresolved_recipes@,
                string_views(old(stack)@),
                recipe,
            ) {
                Ok(linking) => result is Ok && linking.resolved == keys(
                    final(self).resolved_recipes.local(),
                ) && linking.waiting == final(self).unresolved_recipes@,
                Err(failure) => result matches Err(error) && reports(error, failure),
            },
        decreases old(self).unresolved_recipes@.len(),
    {
        let ghost name = recipe.key_spec();
        let ghost below = string_views(stack@);
        let ghost plan = link_recipe(
            start,
            keys(self.resolved_recipes.local()),
            self.unresolved_recipes@,
            below,
            recipe,
        );
        proof {
            lemma_first_index(self.resolved_recipes.local(), name);
            lemma_first_index(worklist, name);
            lemma_keys_contains(self.resolved_recipes.local(), name);
        }
        if let Some(resolved) = self.resolved_recipes.get_here(recipe.name()) {
            let handle = share(resolved);
            return Ok(handle);
        }
        let pushed = recipe.name().to_owned();
        proof {
            lemma_string_views_push(stack@, pushed);
            lemma_enter(
                start,
                worklist,
                self.resolved_recipes,
                self.unresolved_recipes@,
                below,
                name,
            );
        }
        stack.push(pushed);
        let ghost ancestry = below.push(name);

        let mut dependencies: Vec<Rc<Recipe>> = Vec::new();
        let mut j: usize = 0;
        while j < recipe.dependencies.len()
            invariant
                j <= recipe.dependencies@.len(),
                dependencies@.len() == j,
                name == recipe.key_spec(),
                below == string_views(old(stack)@),
                plan == link_recipe(
                    start,
                    keys(old(self).resolved_recipes.local()),
                    old(self).unresolved_recipes@,
                    below,
                    recipe,
                ),
                plan == link_dependencies(
                    start,
                    keys(self.resolved_recipes.local()),
                    self.unresolved_recipes@,
                    ancestry,
                    recipe,
                    j as int,
                ),
                ancestry == below.push(name),
                stack@ == old(stack)@.push(pushed),
                string_views(stack@) == ancestry,
                self.assignments == old(self).assignments,
                self.constants == old(self).constants,
                self.unresolved_recipes.wf(),
                linking(
                    start,
                    worklist,
                    self.resolved_recipes,
                    self.unresolved_recipes@,
                    ancestry,
                ),
                covered(
                    worklist,
                    self.resolved_recipes.local(),
                    self.unresolved_recipes@,
                    ancestry,
                    None,
                ),
                grown(
                    old(self).resolved_recipes.local(),
                    old(self).unresolved_recipes@,
                    self.resolved_recipes.local(),
                    self.unresolved_recipes@,
                ),
                lookup(worklist, name) == Some(recipe),
                forall|h: int|
                    0 <= h < j ==> target_of(
                        start,
                        recipe.dependencies@[h].recipe,
                        #[trigger] dependencies@[h],
                        self.resolved_recipes.local(),
                        self.resolved_recipes.local().len() as int,
                    ),
            decreases recipe.dependencies@.len() - j,
        {
            let path = &recipe.dependencies[j].recipe;
            let leaf = path.last();
            let found = match self.resolved_recipes.get_path(path) {
                Some(resolved) => Some(share(resolved)),
                None => None,
            };
            let ghost local_before = self.resolved_recipes.local();
            let ghost rest_before = self.unresolved_recipes@;
            proof {
                lemma_reached(start, self.resolved_recipes, *path);
                lemma_first_index(rest_before, leaf.text());
            }
            let target = if let Some(handle) = found {
                proof {
                    lemma_found(start, self.resolved_recipes, *path, handle);
                }
                handle
            } else if let Some(at) = position_on_stack(stack, leaf.lexeme()) {
                let circle = circle_from(stack, at, leaf.lexeme());
                let error = leaf.error(
                    CompileErrorKind::CircularRecipeDependency {
                        recipe: recipe.name().to_owned(),
                        circle,
                    },
                );
                proof {
                    lemma_index_on_stack(ancestry, at as int);
                    lemma_circular(
                        start,
                        worklist,
                        self.resolved_recipes,
                        rest_before,
                        ancestry,
                        recipe,
                        j as int,
                        at as int,
                        error,
                    );
                }
                return Err(error);
            } else if let Some(unresolved) = self.unresolved_recipes.remove(leaf.lexeme()) {
                proof {
                    lemma_descend(
                        start,
                        worklist,
                        self.resolved_recipes,
                        rest_before,
                        ancestry,
                        first_index(rest_before, leaf.text()),
                    );
                    lemma_refers(
                        start,
                        worklist,
                        self.resolved_recipes,
                        rest_before,
                        ancestry,
                        recipe,
                        j as int,
                    );
                }
                match self.resolve_recipe(stack, unresolved, Ghost(start), Ghost(worklist)) {
                    Ok(handle) => {
                        proof {
                            lemma_resolved_target(
                                start,
                                *path,
                                handle,
                                self.resolved_recipes.local(),
                            );
                            assert forall|h: int| 0 <= h < j implies target_of(
                                start,
                                recipe.dependencies@[h].recipe,
                                #[trigger] dependencies@[h],
                                self.resolved_recipes.local(),
                                self.resolved_recipes.local().len() as int,
                            ) by {
                                lemma_target_extends(
                                    start,
                                    recipe.dependencies@[h].recipe,
                                    dependencies@[h],
                                    local_before,
                                    self.resolved_recipes.local(),
                                );
                            }
                        }
                        handle
                    },
                    Err(error) => {
                        return Err(error);
                    },
                }
            } else {
                let error = leaf.error(
                    CompileErrorKind::UnknownDependency {
                        recipe: recipe.name().to_owned(),
                        unknown: path.clone(),
                    },
                );
                proof {
                    lemma_unknown(
                        start,
                        worklist,
                        self.resolved_recipes,
                        rest_before,
                        ancestry,
                        recipe,
                        j as int,
                        error,
                    );
                }
                return Err(error);
            };
            dependencies.push(target);
            j += 1;
        }

        stack.pop();
        assert(stack@ =~= old(stack)@);
        let ghost before = self.resolved_recipes;
        let ghost targets = dependencies@;
        let resolved = Rc::new(recipe.resolve(dependencies));
        proof {
            assert(under_way(
                worklist,
                before.local(),
                self.unresolved_recipes@,
                ancestry[below.len() as int],
            ));
        }
        self.resolved_recipes.insert(share(&resolved));
        proof {
            self.resolved_recipes.lemma_wf();
            lemma_finish(
                start,
                worklist,
                before,
                self.resolved_recipes,
                self.unresolved_recipes@,
                below,
                recipe,
                resolved,
                targets,
            );
            lemma_has_key_push(before.local(), resolved, name);
            lemma_keys_push(before.local(), resolved);
        }
        Ok(resolved)
    }

    /// Checks one variable against the parameters in scope.
    fn resolve_variable(&self, variable: &Name, parameters: &[Parameter]) -> (result: CompileResult<()>)
        ensures
            result is Ok <==> defined(self.globals(), parameters@, variable.text()),
            result matches Err(error) ==> {
                &&& error.token == *variable
                &&& match error.kind {
                    CompileErrorKind::UndefinedVariable { variable: named } => named@
                        == variable.text(),
                    _ => false,
                }
            },
    {
        let name = variable.lexeme();
        let defined = self.assignments.contains_key(name) || find(parameters, name).is_some()
            || self.constants.contains_key(name);
        if !defined {
            return Err(variable.error(CompileErrorKind::UndefinedVariable { variable: name.to_owned() }));
        }
        Ok(())
    }

    /// Checks the variables of an expression, in order.
    fn resolve_expression(&self, expression: &Expression, parameters: &[Parameter]) -> (result:
        CompileResult<()>)
        ensures
            match result {
                Ok(_) => expression_scoped(self.globals(), parameters@, *expression),
                Err(error) => undefined_in(self.globals(), parameters@, *expression, error),
            },
    {
        let variables = expression.variables();
        let mut k: usize = 0;
        while k < variables.len()
            invariant
                k <= variables@.len(),
                variables@ == expression.variables@,
                forall|h: int|
                    0 <= h < k ==> defined(
                        self.globals(),
                        parameters@,
                        (#[trigger] expression.variables@[h]).text(),
                    ),
            decreases variables@.len() - k,
        {
            match self.resolve_variable(&variables[k], parameters) {
                Ok(_) => {},
                Err(error) => {
                    assert(undefined_at(self.globals(), parameters@, *expression, error, k as int));
                    return Err(error);
                },
            }
            k += 1;
        }
        Ok(())
    }

    /// Checks the default of each parameter against the parameters before
    /// it.
    fn resolve_defaults(&self, parameters: &Vec<Parameter>) -> (result: CompileResult<()>)
        ensures
            match result {
                Ok(_) => defaults_scoped(self.globals(), parameters@, parameters@.len() as int),
                Err(error) => default_offence(self.globals(), parameters@, error),
            },
    {
        let mut i: usize = 0;
        while i < parameters.len()
            invariant
                i <= parameters@.len(),
                defaults_scoped(self.globals(), parameters@, i as int),
            decreases parameters@.len() - i,
        {
            if let Some(expression) = &parameters[i].default {
                let scope = vstd::slice::slice_subrange(parameters.as_slice(), 0, i);
                assert(scope@ == parameters@.take(i as int));
                match self.resolve_expression(expression, scope) {
                    Ok(_) => {},
                    Err(error) => {
                        return Err(error);
                    },
                }
            }
            assert(default_scoped(self.globals(), parameters@, i as int));
            i += 1;
        }
        Ok(())
    }

    /// Checks the arguments of each dependency against all parameters.
    fn resolve_arguments(&self, recipe: &Recipe) -> (result: CompileResult<()>)
        ensures
            match result {
                Ok(_) => arguments_scoped(
                    self.globals(),
                    recipe.parameters@,
                    recipe.mentions().arguments,
                    recipe.mentions().arguments.len() as int,
                ),
                Err(error) => argument_offence(
                    self.globals(),
                    recipe.parameters@,
                    recipe.mentions().arguments,
                    error,
                ),
            },
    {
        let ghost lists = recipe.mentions().arguments;
        let mut j: usize = 0;
        while j < recipe.dependencies.len()
            invariant
                j <= recipe.dependencies@.len(),
                lists == recipe.mentions().arguments,
                arguments_scoped(self.globals(), recipe.parameters@, lists, j as int),
            decreases recipe.dependencies@.len() - j,
        {
            let arguments = &recipe.dependencies[j].arguments;
            assert(lists[j as int] == *arguments);
            let mut a: usize = 0;
            while a < arguments.len()
                invariant
                    a <= arguments@.len(),
                    j < recipe.dependencies@.len(),
                    lists == recipe.mentions().arguments,
                    lists[j as int] == *arguments,
                    arguments_scoped(self.globals(), recipe.parameters@, lists, j as int),
                    expressions_scoped(self.globals(), recipe.parameters@, arguments@, a as int),
                decreases arguments@.len() - a,
            {
                match self.resolve_expression(&arguments[a], recipe.parameters.as_slice()) {
                    Ok(_) => {},
                    Err(error) => {
                        assert(argument_offence_at(
                            self.globals(),
                            recipe.parameters@,
                            lists,
                            error,
                            j as int,
                            a as int,
                        ));
                        return Err(error);
                    },
                }
                a += 1;
            }
            j += 1;
        }
        Ok(())
    }

    /// Checks the interpolations of the body against all parameters.
    fn resolve_body(&self, settings: &Settings, recipe: &Recipe) -> (result: CompileResult<()>)
        ensures
            match result {
                Ok(_) => body_scoped(
                    self.globals(),
                    recipe.parameters@,
                    recipe.body@,
                    settings.ignore_comments,
                    recipe.body@.len() as int,
                ),
                Err(error) => body_offence(
                    self.globals(),
                    recipe.parameters@,
                    recipe.body@,
                    settings.ignore_comments,
                    error,
                ),
            },
    {
        let mut l: usize = 0;
        while l < recipe.body.len()
            invariant
                l <= recipe.body@.len(),
                body_scoped(
                    self.globals(),
                    recipe.parameters@,
                    recipe.body@,
                    settings.ignore_comments,
                    l as int,
                ),
            decreases recipe.body@.len() - l,
        {
            let line = &recipe.body[l];
            if !(line.is_comment() && settings.ignore_comments) {
                let mut f: usize = 0;
                while f < line.fragments.len()
                    invariant
                        f <= line.fragments@.len(),
                        l < recipe.body@.len(),
                        *line == recipe.body@[l as int],
                        line_checked(*line, settings.ignore_comments),
                        body_scoped(
                            self.globals(),
                            recipe.parameters@,
                            recipe.body@,
                            settings.ignore_comments,
                            l as int,
                        ),
                        fragments_scoped(
                            self.globals(),
                            recipe.parameters@,
                            line.fragments@,
                            f as int,
                        ),
                    decreases line.fragments@.len() - f,
                {
                    if let Fragment::Interpolation { expression } = &line.fragments[f] {
                        match self.resolve_expression(expression, recipe.parameters.as_slice()) {
                            Ok(_) => {},
                            Err(error) => {
                                assert(body_offence_at(
                                    self.globals(),
                                    recipe.parameters@,
                                    recipe.body@,
                                    settings.ignore_comments,
                                    error,
                                    l as int,
                                    f as int,
                                ));
                                return Err(error);
                            },
                        }
                    }
                    f += 1;
                }
            }
            assert(line_scoped(
                self.globals(),
                recipe.parameters@,
                recipe.body@[l as int],
                settings.ignore_comments,
            ));
            l += 1;
        }
        Ok(())
    }

    /// Checks every variable that a recipe mentions: defaults first, then
    /// arguments, then the body.
    fn resolve_variables(&self, settings: &Settings, recipe: &Recipe) -> (result: CompileResult<()>)
        ensures
            match result {
                Ok(_) => well_scoped(self.globals(), settings.ignore_comments, recipe.mentions()),
                Err(error) => offence(
                    self.globals(),
                    settings.ignore_comments,
                    recipe.mentions(),
                    error,
                ),
            },
    {
        match self.resolve_defaults(&recipe.parameters) {
            Ok(_) => {},
            Err(error) => {
                return Err(error);
            },
        }
        match self.resolve_arguments(recipe) {
            Ok(_) => {},
            Err(error) => {
                return Err(error);
            },
        }
        self.resolve_body(settings, recipe)
    }
}

} // verus!
