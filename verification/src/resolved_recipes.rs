//! The resolved recipes of a module and, below it, of its submodules.

use std::rc::Rc;
use vstd::prelude::*;
use crate::keyed::{distinct_keys, find, has_key, lookup, Keyed};
use crate::name::{Name, Namepath};
use crate::recipe::Recipe;
use crate::table::Table;

verus! {

/// The namespace of a module: its own resolved recipes, and the namespaces
/// of its submodules, each complete before it was put here.
#[derive(Debug, PartialEq, Eq)]
pub struct ResolvedRecipes {
    name: String,
    here: Table<Rc<Recipe>>,
    modules: Vec<ResolvedRecipes>,
}

impl ResolvedRecipes {
    /// The name of the module.
    pub closed spec fn module_name(&self) -> Seq<char> {
        self.name@
    }

    /// The module's own recipes, in the order in which they were inserted.
    pub closed spec fn local(&self) -> Seq<Rc<Recipe>> {
        self.here@
    }

    /// The namespaces of the submodules, in the order in which they were
    /// added.
    pub closed spec fn children(&self) -> Seq<ResolvedRecipes> {
        self.modules@
    }

    /// The invariant of a namespace: no two of its own recipes share a name,
    /// no two of its submodules do, and the same holds in every submodule.
    pub closed spec fn wf(&self) -> bool
        decreases self,
    {
        &&& distinct_keys(self.here@)
        &&& distinct_keys(self.modules@)
        &&& forall|i: int| 0 <= i < self.modules@.len() ==> (#[trigger] self.modules@[i]).wf()
    }

    /// What the invariant says of the namespace itself and of its
    /// submodules.
    pub proof fn lemma_wf(&self)
        requires
            self.wf(),
        ensures
            distinct_keys(self.local()),
            distinct_keys(self.children()),
            forall|i: int| 0 <= i < self.children().len() ==> (#[trigger] self.children()[i]).wf(),
    {
    }

    /// The module's own recipe of the given name.
    pub open spec fn lookup_local(&self, name: Seq<char>) -> Option<Rc<Recipe>> {
        lookup(self.local(), name)
    }

    /// The recipe that a path leads to: a path of one segment names one of
    /// the module's own recipes; a longer path names a submodule first and
    /// goes on inside it. `None` as soon as a step finds nothing.
    pub open spec fn lookup_path(&self, path: Seq<Name>) -> Option<Rc<Recipe>>
        decreases path.len(),
    {
        if path.len() == 0 {
            None
        } else if path.len() == 1 {
            self.lookup_local(path[0].text())
        } else {
            match lookup(self.children(), path[0].text()) {
                Some(module) => module.lookup_path(path.drop_first()),
                None => None,
            }
        }
    }

    /// The namespace of a module without recipes and submodules.
    pub fn new(name: &str) -> (namespace: ResolvedRecipes)
        ensures
            namespace.module_name() == name@,
            namespace.local() == Seq::<Rc<Recipe>>::empty(),
            namespace.children() == Seq::<ResolvedRecipes>::empty(),
            namespace.wf(),
    {
        ResolvedRecipes { name: name.to_owned(), here: Table::new(), modules: Vec::new() }
    }

    /// Adds the complete namespace of a submodule, under a name that no
    /// submodule bears yet.
    pub fn add_module(&mut self, module: ResolvedRecipes)
        requires
            old(self).wf(),
            module.wf(),
            !has_key(old(self).children(), module.key_spec()),
        ensures
            final(self).wf(),
            final(self).module_name() == old(self).module_name(),
            final(self).local() == old(self).local(),
            final(self).children() == old(self).children().push(module),
    {
        proof {
            assert forall|i: int, j: int|
                0 <= i < j < self.modules@.push(module).len() implies #[trigger] self.modules@.push(
                module,
            )[i].key_spec() != #[trigger] self.modules@.push(module)[j].key_spec() by {
                if j == self.modules@.len() {
                    assert(self.modules@[i].key_spec() != module.key_spec());
                }
            }
        }
        self.modules.push(module);
    }

    /// Adds a resolved recipe under its own name, which must be new here.
    pub fn insert(&mut self, recipe: Rc<Recipe>)
        requires
            old(self).wf(),
            !has_key(old(self).local(), recipe.key_spec()),
        ensures
            final(self).wf(),
            final(self).module_name() == old(self).module_name(),
            final(self).children() == old(self).children(),
            final(self).local() == old(self).local().push(recipe),
    {
        self.here.insert(recipe);
    }

    /// The module's own recipes, in the order in which they were inserted.
    pub fn values_here(&self) -> (recipes: &Vec<Rc<Recipe>>)
        ensures
            recipes@ == self.local(),
    {
        self.here.values()
    }

    /// The module's own recipe of the given name.
    pub fn get_here(&self, name: &str) -> (recipe: Option<&Rc<Recipe>>)
        ensures
            self.lookup_local(name@) == match recipe {
                Some(r) => Some(*r),
                None => None,
            },
    {
        self.here.get(name)
    }

    /// The recipe that `path` leads to from this module.
    pub fn get_path(&self, path: &Namepath) -> (recipe: Option<&Rc<Recipe>>)
        ensures
            self.lookup_path(path@) == match recipe {
                Some(r) => Some(*r),
                None => None,
            },
    {
        let (name, remaining_path) = path.split_first();
        proof {
            path.lemma_nonempty();
        }
        if remaining_path.len() == 0 {
            self.get_here(name.lexeme())
        } else {
            match find(self.modules.as_slice(), name.lexeme()) {
                Some(i) => self.modules[i].get_slice_path(remaining_path),
                None => None,
            }
        }
    }

    fn get_slice_path(&self, path: &[Name]) -> (recipe: Option<&Rc<Recipe>>)
        requires
            path@.len() > 0,
        ensures
            self.lookup_path(path@) == match recipe {
                Some(r) => Some(*r),
                None => None,
            },
        decreases path@.len(),
    {
        let name = &path[0];
        if path.len() == 1 {
            self.get_here(name.lexeme())
        } else {
            let remaining_path = vstd::slice::slice_subrange(path, 1, path.len());
            assert(remaining_path@ =~= path@.drop_first());
            match find(self.modules.as_slice(), name.lexeme()) {
                Some(i) => self.modules[i].get_slice_path(remaining_path),
                None => None,
            }
        }
    }
}

impl Keyed for ResolvedRecipes {
    open spec fn key_spec(&self) -> Seq<char> {
        self.module_name()
    }

    fn key(&self) -> (k: &str) {
        self.name.as_str()
    }
}

} // verus!
