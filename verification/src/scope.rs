//! Which variables a recipe may mention, and where.
//!
//! A recipe mentions variables at three kinds of places, which are checked
//! in this order: the defaults of its parameters, the arguments of its
//! dependencies, and the interpolations of its body. All of them see the
//! assignments of the module and the built-in constants. A default sees
//! the parameters before its own; arguments and the body see every
//! parameter.

use std::rc::Rc;
use vstd::prelude::*;
use crate::error::{CompileError, CompileErrorKind};
use crate::keyed::{has_key, Keyed};
use crate::recipe::{Recipe, UnresolvedRecipe};
use crate::syntax::{Assignment, Constant, Expression, Fragment, Line, Parameter};

verus! {

/// The names that are defined wherever a variable may stand.
pub struct Globals {
    pub assignments: Seq<Assignment>,
    pub constants: Seq<Constant>,
}

/// The variable `name` is defined where the parameters `scope` are visible.
pub open spec fn defined(globals: Globals, scope: Seq<Parameter>, name: Seq<char>) -> bool {
    has_key(globals.assignments, name) || has_key(scope, name) || has_key(globals.constants, name)
}

/// Every variable of the expression is defined.
pub open spec fn expression_scoped(
    globals: Globals,
    scope: Seq<Parameter>,
    expression: Expression,
) -> bool {
    forall|k: int|
        0 <= k < expression.variables@.len() ==> defined(
            globals,
            scope,
            (#[trigger] expression.variables@[k]).text(),
        )
}

/// Variable `k` of the expression is its first undefined one, and `error`
/// reports it: it stands at that variable and names it.
pub open spec fn undefined_at(
    globals: Globals,
    scope: Seq<Parameter>,
    expression: Expression,
    error: CompileError,
    k: int,
) -> bool {
    &&& 0 <= k < expression.variables@.len()
    &&& !defined(globals, scope, expression.variables@[k].text())
    &&& forall|h: int|
        0 <= h < k ==> defined(globals, scope, (#[trigger] expression.variables@[h]).text())
    &&& error.token == expression.variables@[k]
    &&& match error.kind {
        CompileErrorKind::UndefinedVariable { variable } => variable@ == expression.variables@[k].text(),
        _ => false,
    }
}

/// `error` reports the first undefined variable of the expression.
pub open spec fn undefined_in(
    globals: Globals,
    scope: Seq<Parameter>,
    expression: Expression,
    error: CompileError,
) -> bool {
    exists|k: int| undefined_at(globals, scope, expression, error, k)
}

/// The default of parameter `i`, if it has one, mentions only what is
/// defined before that parameter.
pub open spec fn default_scoped(globals: Globals, parameters: Seq<Parameter>, i: int) -> bool {
    match parameters[i].default {
        Some(expression) => expression_scoped(globals, parameters.take(i), expression),
        None => true,
    }
}

/// The defaults of the first `upto` parameters are in scope.
pub open spec fn defaults_scoped(globals: Globals, parameters: Seq<Parameter>, upto: int) -> bool {
    forall|i: int| 0 <= i < upto ==> #[trigger] default_scoped(globals, parameters, i)
}

/// The first `upto` expressions are in scope.
pub open spec fn expressions_scoped(
    globals: Globals,
    scope: Seq<Parameter>,
    expressions: Seq<Expression>,
    upto: int,
) -> bool {
    forall|a: int| 0 <= a < upto ==> expression_scoped(globals, scope, #[trigger] expressions[a])
}

/// The arguments of the first `upto` dependencies are in scope.
pub open spec fn arguments_scoped(
    globals: Globals,
    scope: Seq<Parameter>,
    arguments: Seq<Vec<Expression>>,
    upto: int,
) -> bool {
    forall|j: int|
        0 <= j < upto ==> expressions_scoped(
            globals,
            scope,
            (#[trigger] arguments[j])@,
            arguments[j]@.len() as int,
        )
}

/// The fragment is text, or an interpolation in scope.
pub open spec fn fragment_scoped(globals: Globals, scope: Seq<Parameter>, fragment: Fragment) -> bool {
    match fragment {
        Fragment::Interpolation { expression } => expression_scoped(globals, scope, expression),
        Fragment::Text { .. } => true,
    }
}

/// The first `upto` fragments are in scope.
pub open spec fn fragments_scoped(
    globals: Globals,
    scope: Seq<Parameter>,
    fragments: Seq<Fragment>,
    upto: int,
) -> bool {
    forall|f: int| 0 <= f < upto ==> fragment_scoped(globals, scope, #[trigger] fragments[f])
}

/// The line is looked at: it is no comment, or comments are not ignored.
pub open spec fn line_checked(line: Line, ignore_comments: bool) -> bool {
    !(line.comment && ignore_comments)
}

/// The line is passed over, or all of it is in scope.
pub open spec fn line_scoped(
    globals: Globals,
    scope: Seq<Parameter>,
    line: Line,
    ignore_comments: bool,
) -> bool {
    line_checked(line, ignore_comments) ==> fragments_scoped(
        globals,
        scope,
        line.fragments@,
        line.fragments@.len() as int,
    )
}

/// The first `upto` lines of the body are in scope.
pub open spec fn body_scoped(
    globals: Globals,
    scope: Seq<Parameter>,
    body: Seq<Line>,
    ignore_comments: bool,
    upto: int,
) -> bool {
    forall|l: int| 0 <= l < upto ==> line_scoped(globals, scope, #[trigger] body[l], ignore_comments)
}

/// What of a recipe is checked for scope: its parameters, the arguments of
/// each of its dependencies, and its body.
pub struct Mentions {
    pub parameters: Seq<Parameter>,
    pub arguments: Seq<Vec<Expression>>,
    pub body: Seq<Line>,
}

impl Recipe {
    /// What this recipe mentions.
    pub open spec fn mentions(&self) -> Mentions {
        Mentions {
            parameters: self.parameters@,
            arguments: Seq::new(self.dependencies@.len(), |j: int| self.dependencies@[j].arguments),
            body: self.body@,
        }
    }
}

impl UnresolvedRecipe {
    /// What this recipe mentions.
    pub open spec fn mentions(&self) -> Mentions {
        Mentions {
            parameters: self.parameters@,
            arguments: Seq::new(self.dependencies@.len(), |j: int| self.dependencies@[j].arguments),
            body: self.body@,
        }
    }
}

/// Every variable that the recipe mentions is defined where it stands.
pub open spec fn well_scoped(globals: Globals, ignore_comments: bool, recipe: Mentions) -> bool {
    &&& defaults_scoped(globals, recipe.parameters, recipe.parameters.len() as int)
    &&& arguments_scoped(globals, recipe.parameters, recipe.arguments, recipe.arguments.len() as int)
    &&& body_scoped(globals, recipe.parameters, recipe.body, ignore_comments, recipe.body.len() as int)
}

/// `error` reports the first undefined variable among the defaults.
pub open spec fn default_offence(globals: Globals, parameters: Seq<Parameter>, error: CompileError) -> bool {
    exists|i: int|
        0 <= i < parameters.len() && defaults_scoped(globals, parameters, i) && match (
        #[trigger] parameters[i]).default {
            Some(expression) => undefined_in(globals, parameters.take(i), expression, error),
            None => false,
        }
}

/// `error` reports the first undefined variable of argument `a` of
/// dependency `j`, before which all arguments are in scope.
pub open spec fn argument_offence_at(
    globals: Globals,
    scope: Seq<Parameter>,
    arguments: Seq<Vec<Expression>>,
    error: CompileError,
    j: int,
    a: int,
) -> bool {
    &&& 0 <= j < arguments.len()
    &&& 0 <= a < arguments[j]@.len()
    &&& arguments_scoped(globals, scope, arguments, j)
    &&& expressions_scoped(globals, scope, arguments[j]@, a)
    &&& undefined_in(globals, scope, arguments[j]@[a], error)
}

/// `error` reports the first undefined variable among the arguments of the
/// dependencies.
pub open spec fn argument_offence(
    globals: Globals,
    scope: Seq<Parameter>,
    arguments: Seq<Vec<Expression>>,
    error: CompileError,
) -> bool {
    exists|j: int, a: int| argument_offence_at(globals, scope, arguments, error, j, a)
}

/// `error` reports the first undefined variable of fragment `f` of line
/// `l`, which is looked at and before which the body is in scope.
pub open spec fn body_offence_at(
    globals: Globals,
    scope: Seq<Parameter>,
    body: Seq<Line>,
    ignore_comments: bool,
    error: CompileError,
    l: int,
    f: int,
) -> bool {
    &&& 0 <= l < body.len()
    &&& 0 <= f < body[l].fragments@.len()
    &&& body_scoped(globals, scope, body, ignore_comments, l)
    &&& line_checked(body[l], ignore_comments)
    &&& fragments_scoped(globals, scope, body[l].fragments@, f)
    &&& match body[l].fragments@[f] {
        Fragment::Interpolation { expression } => undefined_in(globals, scope, expression, error),
        Fragment::Text { .. } => false,
    }
}

/// `error` reports the first undefined variable of the body.
pub open spec fn body_offence(
    globals: Globals,
    scope: Seq<Parameter>,
    body: Seq<Line>,
    ignore_comments: bool,
    error: CompileError,
) -> bool {
    exists|l: int, f: int| body_offence_at(globals, scope, body, ignore_comments, error, l, f)
}

/// `error` reports the first undefined variable of the recipe, in the order
/// defaults, arguments, body.
pub open spec fn offence(
    globals: Globals,
    ignore_comments: bool,
    recipe: Mentions,
    error: CompileError,
) -> bool {
    ||| default_offence(globals, recipe.parameters, error)
    ||| {
        &&& defaults_scoped(globals, recipe.parameters, recipe.parameters.len() as int)
        &&& argument_offence(globals, recipe.parameters, recipe.arguments, error)
    }
    ||| {
        &&& defaults_scoped(globals, recipe.parameters, recipe.parameters.len() as int)
        &&& arguments_scoped(
            globals,
            recipe.parameters,
            recipe.arguments,
            recipe.arguments.len() as int,
        )
        &&& body_offence(globals, recipe.parameters, recipe.body, ignore_comments, error)
    }
}

/// The first `upto` recipes are well scoped.
pub open spec fn recipes_scoped(
    globals: Globals,
    ignore_comments: bool,
    recipes: Seq<Rc<Recipe>>,
    upto: int,
) -> bool {
    forall|i: int|
        0 <= i < upto ==> well_scoped(globals, ignore_comments, (#[trigger] recipes[i]).mentions())
}

/// `error` reports the first undefined variable of the first recipe that
/// has one.
pub open spec fn scope_failure(
    globals: Globals,
    ignore_comments: bool,
    recipes: Seq<Rc<Recipe>>,
    error: CompileError,
) -> bool {
    exists|i: int|
        0 <= i < recipes.len() && recipes_scoped(globals, ignore_comments, recipes, i) && offence(
            globals,
            ignore_comments,
            (#[trigger] recipes[i]).mentions(),
            error,
        )
}

/// An error that reports an undefined variable of an expression names a
/// variable of that expression that is no assignment, no parameter in scope
/// and no constant; so the expression is not in scope.
pub proof fn lemma_undefined_is_just(
    globals: Globals,
    scope: Seq<Parameter>,
    expression: Expression,
    error: CompileError,
)
    requires
        undefined_in(globals, scope, expression, error),
    ensures
        !expression_scoped(globals, scope, expression),
        names_undefined(globals, error),
        !has_key(scope, error.token.text()),
        expression.variables@.contains(error.token),
{
    let k = choose|k: int| undefined_at(globals, scope, expression, error, k);
    assert(expression.variables@[k] == error.token);
}

/// The error is of the kind `UndefinedVariable`, names the identifier at
/// which it stands, and that identifier is no assignment and no constant.
pub open spec fn names_undefined(globals: Globals, error: CompileError) -> bool {
    &&& match error.kind {
        CompileErrorKind::UndefinedVariable { variable } => variable@ == error.token.text(),
        _ => false,
    }
    &&& !has_key(globals.assignments, error.token.text())
    &&& !has_key(globals.constants, error.token.text())
}

/// An error that reports an undefined variable of a recipe names an
/// identifier that is no assignment and no constant, and the recipe is not
/// well scoped.
pub proof fn lemma_offence_is_just(
    globals: Globals,
    ignore_comments: bool,
    recipe: Mentions,
    error: CompileError,
)
    requires
        offence(globals, ignore_comments, recipe, error),
    ensures
        !well_scoped(globals, ignore_comments, recipe),
        names_undefined(globals, error),
{
    if default_offence(globals, recipe.parameters, error) {
        let i = choose|i: int|
            0 <= i < recipe.parameters.len() && defaults_scoped(globals, recipe.parameters, i)
                && match (#[trigger] recipe.parameters[i]).default {
                Some(expression) => undefined_in(
                    globals,
                    recipe.parameters.take(i),
                    expression,
                    error,
                ),
                None => false,
            };
        let expression = recipe.parameters[i].default->Some_0;
        lemma_undefined_is_just(globals, recipe.parameters.take(i), expression, error);
        assert(!default_scoped(globals, recipe.parameters, i));
    } else if argument_offence(globals, recipe.parameters, recipe.arguments, error) {
        let (j, a) = choose|j: int, a: int|
            argument_offence_at(globals, recipe.parameters, recipe.arguments, error, j, a);
        lemma_undefined_is_just(globals, recipe.parameters, recipe.arguments[j]@[a], error);
        assert(!expressions_scoped(
            globals,
            recipe.parameters,
            recipe.arguments[j]@,
            recipe.arguments[j]@.len() as int,
        ));
    } else {
        let (l, f) = choose|l: int, f: int|
            body_offence_at(globals, recipe.parameters, recipe.body, ignore_comments, error, l, f);
        match recipe.body[l].fragments@[f] {
            Fragment::Interpolation { expression } => {
                lemma_undefined_is_just(globals, recipe.parameters, expression, error);
            },
            Fragment::Text { .. } => {},
        }
        assert(!fragment_scoped(globals, recipe.parameters, recipe.body[l].fragments@[f]));
        assert(!fragments_scoped(
            globals,
            recipe.parameters,
            recipe.body[l].fragments@,
            recipe.body[l].fragments@.len() as int,
        ));
        assert(!line_scoped(globals, recipe.parameters, recipe.body[l], ignore_comments));
    }
}

/// An error that reports an undefined variable among recipes names an
/// identifier that is no assignment and no constant, and not all of the
/// recipes are well scoped.
pub proof fn lemma_scope_failure_is_just(
    globals: Globals,
    ignore_comments: bool,
    recipes: Seq<Rc<Recipe>>,
    error: CompileError,
)
    requires
        scope_failure(globals, ignore_comments, recipes, error),
    ensures
        !recipes_scoped(globals, ignore_comments, recipes, recipes.len() as int),
        names_undefined(globals, error),
{
    let i = choose|i: int|
        0 <= i < recipes.len() && recipes_scoped(globals, ignore_comments, recipes, i) && offence(
            globals,
            ignore_comments,
            (#[trigger] recipes[i]).mentions(),
            error,
        );
    lemma_offence_is_just(globals, ignore_comments, recipes[i].mentions(), error);
}

/// The default of a parameter sees only the parameters before it: a
/// default that mentions a name which is no assignment, no constant and no
/// earlier parameter is out of scope, whatever parameters follow.
pub proof fn lemma_default_sees_earlier_parameters(
    globals: Globals,
    ignore_comments: bool,
    recipe: Mentions,
    i: int,
    k: int,
)
    requires
        0 <= i < recipe.parameters.len(),
        recipe.parameters[i].default is Some,
        0 <= k < recipe.parameters[i].default->Some_0.variables@.len(),
        ({
            let name = recipe.parameters[i].default->Some_0.variables@[k].text();
            &&& !has_key(globals.assignments, name)
            &&& !has_key(globals.constants, name)
            &&& forall|h: int| 0 <= h < i ==> (#[trigger] recipe.parameters[h]).name.text() != name
        }),
    ensures
        !default_scoped(globals, recipe.parameters, i),
        !well_scoped(globals, ignore_comments, recipe),
{
    let expression = recipe.parameters[i].default->Some_0;
    let name = expression.variables@[k].text();
    let scope = recipe.parameters.take(i);
    if has_key(scope, name) {
        let h = choose|h: int| 0 <= h < scope.len() && #[trigger] scope[h].key_spec() == name;
        assert(scope[h] == recipe.parameters[h]);
    }
    assert(!defined(globals, scope, expression.variables@[k].text()));
    assert(!expression_scoped(globals, scope, expression));
    assert(!default_scoped(globals, recipe.parameters, i));
}

/// Arguments and body see every parameter: an expression there whose
/// variables each name some parameter, at whatever place, is in scope.
pub proof fn lemma_arguments_see_all_parameters(
    globals: Globals,
    parameters: Seq<Parameter>,
    expression: Expression,
)
    requires
        forall|k: int|
            0 <= k < expression.variables@.len() ==> exists|p: int|
                0 <= p < parameters.len() && (#[trigger] parameters[p]).name.text() == (
                #[trigger] expression.variables@[k]).text(),
    ensures
        expression_scoped(globals, parameters, expression),
{
    assert forall|k: int| 0 <= k < expression.variables@.len() implies defined(
        globals,
        parameters,
        (#[trigger] expression.variables@[k]).text(),
    ) by {
        let p = choose|p: int|
            0 <= p < parameters.len() && (#[trigger] parameters[p]).name.text()
                == expression.variables@[k].text();
        assert(parameters[p].key_spec() == expression.variables@[k].text());
    }
}

} // verus!
