//! Recipes before and after their dependencies are linked.

use std::rc::Rc;
use vstd::prelude::*;
use crate::keyed::Keyed;
use crate::name::{Name, Namepath};
use crate::syntax::{Expression, Line, Parameter};

verus! {

/// A dependency as it was written: the path of a recipe and the arguments
/// passed to it.
#[derive(Debug, PartialEq, Eq)]
pub struct UnresolvedDependency {
    pub recipe: Namepath,
    pub arguments: Vec<Expression>,
}

/// A recipe whose dependencies are still paths.
#[derive(Debug, PartialEq, Eq)]
pub struct UnresolvedRecipe {
    pub name: Name,
    pub parameters: Vec<Parameter>,
    pub dependencies: Vec<UnresolvedDependency>,
    pub body: Vec<Line>,
}

/// A dependency that holds the recipe it names.
#[derive(Debug, PartialEq, Eq)]
pub struct Dependency {
    pub recipe: Rc<Recipe>,
    pub arguments: Vec<Expression>,
}

/// A recipe whose dependencies are linked. Several recipes may hold the same
/// dependency.
#[derive(Debug, PartialEq, Eq)]
pub struct Recipe {
    pub name: Name,
    pub parameters: Vec<Parameter>,
    pub dependencies: Vec<Dependency>,
    pub body: Vec<Line>,
}

impl Recipe {
    /// The name of the recipe.
    pub fn name(&self) -> (name: &str)
        ensures
            name@ == self.name.text(),
    {
        self.name.lexeme()
    }
}

impl Keyed for Rc<Recipe> {
    open spec fn key_spec(&self) -> Seq<char> {
        self.name.text()
    }

    fn key(&self) -> (k: &str) {
        self.name.lexeme()
    }
}

/// Another handle to the same recipe.
///
/// Trusted: calls `Rc::clone` of the standard library, which hands out a
/// second pointer to the allocation of the first; the contract says that the
/// new handle holds the value that the given one holds.
#[verifier::external_body]
pub(crate) fn share(recipe: &Rc<Recipe>) -> (handle: Rc<Recipe>)
    ensures
        handle == *recipe,
{
    Rc::clone(recipe)
}

/// `recipe` is `unresolved` with its dependencies replaced, one by one and in
/// order, by the recipes of `targets`.
pub open spec fn built_from(
    recipe: Recipe,
    unresolved: UnresolvedRecipe,
    targets: Seq<Rc<Recipe>>,
) -> bool {
    &&& recipe.name == unresolved.name
    &&& recipe.parameters == unresolved.parameters
    &&& recipe.body == unresolved.body
    &&& recipe.dependencies@.len() == unresolved.dependencies@.len()
    &&& targets.len() == unresolved.dependencies@.len()
    &&& forall|j: int|
        0 <= j < recipe.dependencies@.len() ==> {
            &&& (#[trigger] recipe.dependencies@[j]).recipe == targets[j]
            &&& recipe.dependencies@[j].arguments == unresolved.dependencies@[j].arguments
        }
}

impl UnresolvedRecipe {
    /// The name of the recipe.
    pub fn name(&self) -> (name: &str)
        ensures
            name@ == self.name.text(),
    {
        self.name.lexeme()
    }

    /// Links the recipe: each dependency gets the recipe that stands at its
    /// place in `resolved`, and keeps its arguments.
    pub fn resolve(self, resolved: Vec<Rc<Recipe>>) -> (recipe: Recipe)
        requires
            resolved@.len() == self.dependencies@.len(),
        ensures
            built_from(recipe, self, resolved@),
    {
        let UnresolvedRecipe { name, parameters, dependencies, body } = self;
        let ghost declared = dependencies@;
        let ghost targets = resolved@;
        let mut dependencies = dependencies;
        let mut resolved = resolved;
        let mut reversed: Vec<Dependency> = Vec::new();
        while dependencies.len() > 0
            invariant
                dependencies@.len() == resolved@.len(),
                dependencies@.len() + reversed@.len() == declared.len(),
                declared.len() == targets.len(),
                dependencies@ == declared.take(dependencies@.len() as int),
                resolved@ == targets.take(dependencies@.len() as int),
                forall|k: int|
                    0 <= k < reversed@.len() ==> {
                        &&& (#[trigger] reversed@[k]).recipe == targets[declared.len() - 1 - k]
                        &&& reversed@[k].arguments == declared[declared.len() - 1 - k].arguments
                    },
            decreases dependencies@.len(),
        {
            let declared_one = dependencies.pop().unwrap();
            let target = resolved.pop().unwrap();
            reversed.push(Dependency { recipe: target, arguments: declared_one.arguments });
        }
        let mut linked: Vec<Dependency> = Vec::new();
        while reversed.len() > 0
            invariant
                linked@.len() + reversed@.len() == declared.len(),
                declared.len() == targets.len(),
                forall|k: int|
                    0 <= k < reversed@.len() ==> {
                        &&& (#[trigger] reversed@[k]).recipe == targets[declared.len() - 1 - k]
                        &&& reversed@[k].arguments == declared[declared.len() - 1 - k].arguments
                    },
                forall|j: int|
                    0 <= j < linked@.len() ==> {
                        &&& (#[trigger] linked@[j]).recipe == targets[j]
                        &&& linked@[j].arguments == declared[j].arguments
                    },
            decreases reversed@.len(),
        {
            let dependency = reversed.pop().unwrap();
            linked.push(dependency);
        }
        Recipe { name, parameters, dependencies: linked, body }
    }
}

impl Keyed for UnresolvedRecipe {
    open spec fn key_spec(&self) -> Seq<char> {
        self.name.text()
    }

    fn key(&self) -> (k: &str) {
        self.name.lexeme()
    }
}

} // verus!
