use std::rc::Rc;

use recipe_resolver::{
    Assignment, CompileError, CompileErrorKind, Constant, Expression, Fragment, Line, Name,
    Namepath, Parameter, RecipeResolver, ResolvedRecipes, Settings, Table, UnresolvedDependency,
    UnresolvedRecipe,
};

fn name(lexeme: &str, line: usize, column: usize, offset: usize) -> Name {
    Name::new(lexeme, line, column, offset, lexeme.len())
}

/// An identifier whose place does not matter to the test.
fn word(lexeme: &str) -> Name {
    name(lexeme, 0, 0, 0)
}

fn path(mut segments: Vec<Name>) -> Namepath {
    let mut path = Namepath::new(segments.remove(0));
    for segment in segments {
        path.push(segment);
    }
    path
}

fn mentions(variables: Vec<Name>) -> Expression {
    Expression { variables }
}

fn parameter(name: Name, default: Option<Expression>) -> Parameter {
    Parameter { name, default }
}

fn dependency(segments: Vec<Name>, arguments: Vec<Expression>) -> UnresolvedDependency {
    UnresolvedDependency { recipe: path(segments), arguments }
}

fn on(lexeme: &str) -> UnresolvedDependency {
    dependency(vec![word(lexeme)], Vec::new())
}

fn text(text: &str) -> Fragment {
    Fragment::Text { text: text.to_string() }
}

fn interpolation(variables: Vec<Name>) -> Fragment {
    Fragment::Interpolation { expression: mentions(variables) }
}

fn line(fragments: Vec<Fragment>) -> Line {
    Line { fragments, comment: false }
}

fn comment(fragments: Vec<Fragment>) -> Line {
    Line { fragments, comment: true }
}

fn recipe(
    name: Name,
    parameters: Vec<Parameter>,
    dependencies: Vec<UnresolvedDependency>,
    body: Vec<Line>,
) -> UnresolvedRecipe {
    UnresolvedRecipe { name, parameters, dependencies, body }
}

fn plain(lexeme: &str, dependencies: Vec<UnresolvedDependency>) -> UnresolvedRecipe {
    recipe(word(lexeme), Vec::new(), dependencies, Vec::new())
}

struct Module {
    assignments: Vec<Assignment>,
    constants: Vec<Constant>,
    ignore_comments: bool,
    recipes: Vec<UnresolvedRecipe>,
    namespace: ResolvedRecipes,
}

fn module(recipes: Vec<UnresolvedRecipe>) -> Module {
    Module {
        assignments: Vec::new(),
        constants: Vec::new(),
        ignore_comments: false,
        recipes,
        namespace: ResolvedRecipes::new(""),
    }
}

fn resolve(module: Module) -> Result<ResolvedRecipes, CompileError> {
    let mut assignments = Table::new();
    for assignment in module.assignments {
        assignments.insert(assignment);
    }
    let mut constants = Table::new();
    for constant in module.constants {
        constants.insert(constant);
    }
    let settings = Settings { ignore_comments: module.ignore_comments };
    let mut worklist = Table::new();
    for recipe in module.recipes {
        worklist.insert(recipe);
    }
    RecipeResolver::resolve_recipes(&assignments, &constants, &settings, worklist, module.namespace)
}

fn assert_error(
    error: CompileError,
    offset: usize,
    line: usize,
    column: usize,
    width: usize,
    kind: CompileErrorKind,
) {
    assert_eq!(error.token.offset, offset);
    assert_eq!(error.token.line, line);
    assert_eq!(error.token.column, column);
    assert_eq!(error.token.length, width);
    assert_eq!(error.kind, kind);
}

fn circle(names: &[&str]) -> Vec<String> {
    names.iter().map(|name| name.to_string()).collect()
}

fn undefined(variable: &str) -> CompileErrorKind {
    CompileErrorKind::UndefinedVariable { variable: variable.to_string() }
}

#[test]
fn circular_recipe_dependency() {
    // a: b
    // b: a
    let a = recipe(
        name("a", 0, 0, 0),
        Vec::new(),
        vec![dependency(vec![name("b", 0, 3, 3)], Vec::new())],
        Vec::new(),
    );
    let b = recipe(
        name("b", 1, 0, 5),
        Vec::new(),
        vec![dependency(vec![name("a", 1, 3, 8)], Vec::new())],
        Vec::new(),
    );
    let error = resolve(module(vec![a, b])).unwrap_err();
    assert_error(
        error,
        8,
        1,
        3,
        1,
        CompileErrorKind::CircularRecipeDependency {
            recipe: "b".to_string(),
            circle: circle(&["a", "b", "a"]),
        },
    );
}

#[test]
fn self_recipe_dependency() {
    // a: a
    let a = recipe(
        name("a", 0, 0, 0),
        Vec::new(),
        vec![dependency(vec![name("a", 0, 3, 3)], Vec::new())],
        Vec::new(),
    );
    let error = resolve(module(vec![a])).unwrap_err();
    assert_error(
        error,
        3,
        0,
        3,
        1,
        CompileErrorKind::CircularRecipeDependency {
            recipe: "a".to_string(),
            circle: circle(&["a", "a"]),
        },
    );
}

#[test]
fn unknown_dependency() {
    // a: b
    let a = recipe(
        name("a", 0, 0, 0),
        Vec::new(),
        vec![dependency(vec![name("b", 0, 3, 3)], Vec::new())],
        Vec::new(),
    );
    let error = resolve(module(vec![a])).unwrap_err();
    assert_error(
        error,
        3,
        0,
        3,
        1,
        CompileErrorKind::UnknownDependency {
            recipe: "a".to_string(),
            unknown: Namepath::new(Name::new("b", 0, 3, 3, 1)),
        },
    );
}

#[test]
fn unknown_interpolation_variable() {
    // x:
    //  {{   hello}}
    let x = recipe(
        name("x", 0, 0, 0),
        Vec::new(),
        Vec::new(),
        vec![line(vec![interpolation(vec![name("hello", 1, 6, 9)])])],
    );
    let error = resolve(module(vec![x])).unwrap_err();
    assert_error(error, 9, 1, 6, 5, undefined("hello"));
}

#[test]
fn unknown_second_interpolation_variable() {
    // wtf:="x"
    // x:
    //  echo
    //  foo {{wtf}} {{ lol }}
    let x = recipe(
        name("x", 1, 0, 9),
        Vec::new(),
        Vec::new(),
        vec![
            line(vec![text("echo")]),
            line(vec![
                text("foo "),
                interpolation(vec![name("wtf", 3, 7, 25)]),
                text(" "),
                interpolation(vec![name("lol", 3, 16, 34)]),
            ]),
        ],
    );
    let mut module = module(vec![x]);
    module.assignments.push(Assignment { name: name("wtf", 0, 0, 0), value: mentions(Vec::new()) });
    let error = resolve(module).unwrap_err();
    assert_error(error, 34, 3, 16, 3, undefined("lol"));
}

#[test]
fn unknown_variable_in_default() {
    // a f=foo:
    let a = recipe(
        name("a", 0, 0, 0),
        vec![parameter(name("f", 0, 2, 2), Some(mentions(vec![name("foo", 0, 4, 4)])))],
        Vec::new(),
        Vec::new(),
    );
    let error = resolve(module(vec![a])).unwrap_err();
    assert_error(error, 4, 0, 4, 3, undefined("foo"));
}

#[test]
fn unknown_variable_in_dependency_argument() {
    // bar x:
    // foo: (bar baz)
    let bar =
        recipe(name("bar", 0, 0, 0), vec![parameter(name("x", 0, 4, 4), None)], Vec::new(), Vec::new());
    let foo = recipe(
        name("foo", 1, 0, 7),
        Vec::new(),
        vec![dependency(vec![name("bar", 1, 6, 13)], vec![mentions(vec![name("baz", 1, 10, 17)])])],
        Vec::new(),
    );
    let error = resolve(module(vec![bar, foo])).unwrap_err();
    assert_error(error, 17, 1, 10, 3, undefined("baz"));
}

fn names_of(namespace: &ResolvedRecipes) -> Vec<String> {
    namespace.values_here().iter().map(|recipe| recipe.name().to_string()).collect()
}

fn dependency_names(namespace: &ResolvedRecipes, recipe: &str) -> Vec<String> {
    namespace
        .get_here(recipe)
        .unwrap()
        .dependencies
        .iter()
        .map(|dependency| dependency.recipe.name().to_string())
        .collect()
}

#[test]
fn acyclic_graph_resolves_whatever_the_order_of_declaration() {
    let declarations: Vec<fn() -> UnresolvedRecipe> = vec![
        || plain("a", vec![on("b"), on("c"), on("b")]),
        || plain("b", vec![on("c")]),
        || plain("c", Vec::new()),
        || plain("d", vec![on("a")]),
    ];
    let orders: [[usize; 4]; 6] =
        [[0, 1, 2, 3], [3, 2, 1, 0], [2, 0, 3, 1], [1, 3, 0, 2], [3, 0, 1, 2], [2, 1, 0, 3]];
    for order in orders {
        let recipes = order.iter().map(|&i| declarations[i]()).collect();
        let namespace = resolve(module(recipes)).unwrap();
        assert_eq!(namespace.values_here().len(), 4);
        assert_eq!(dependency_names(&namespace, "a"), vec!["b", "c", "b"]);
        assert_eq!(dependency_names(&namespace, "b"), vec!["c"]);
        assert_eq!(dependency_names(&namespace, "c"), Vec::<String>::new());
        assert_eq!(dependency_names(&namespace, "d"), vec!["a"]);
    }
}

#[test]
fn recipes_stand_after_their_dependencies() {
    let namespace = resolve(module(vec![
        plain("a", vec![on("b"), on("c")]),
        plain("b", vec![on("d")]),
        plain("c", vec![on("d")]),
        plain("d", Vec::new()),
        plain("e", Vec::new()),
    ]))
    .unwrap();
    assert_eq!(names_of(&namespace), vec!["d", "b", "c", "a", "e"]);
}

#[test]
fn linked_recipe_keeps_what_was_declared() {
    let declared = recipe(
        name("build", 3, 0, 40),
        vec![
            parameter(name("target", 3, 6, 46), None),
            parameter(name("mode", 3, 13, 53), Some(mentions(vec![name("target", 3, 18, 58)]))),
        ],
        vec![dependency(
            vec![name("clean", 3, 27, 67)],
            vec![mentions(vec![name("mode", 3, 33, 73)]), mentions(Vec::new())],
        )],
        vec![
            line(vec![text("cc "), interpolation(vec![name("target", 4, 7, 90)])]),
            comment(vec![text("# done")]),
        ],
    );
    let clean = recipe(
        name("clean", 0, 0, 0),
        vec![parameter(name("a", 0, 6, 6), None), parameter(name("b", 0, 8, 8), None)],
        Vec::new(),
        Vec::new(),
    );
    let namespace = resolve(module(vec![declared, clean])).unwrap();
    let build = namespace.get_here("build").unwrap();
    assert_eq!(build.name, name("build", 3, 0, 40));
    assert_eq!(
        build.parameters,
        vec![
            parameter(name("target", 3, 6, 46), None),
            parameter(name("mode", 3, 13, 53), Some(mentions(vec![name("target", 3, 18, 58)]))),
        ]
    );
    assert_eq!(
        build.body,
        vec![
            line(vec![text("cc "), interpolation(vec![name("target", 4, 7, 90)])]),
            comment(vec![text("# done")]),
        ]
    );
    assert_eq!(build.dependencies.len(), 1);
    assert_eq!(
        build.dependencies[0].arguments,
        vec![mentions(vec![name("mode", 3, 33, 73)]), mentions(Vec::new())]
    );
    assert_eq!(build.dependencies[0].recipe.name(), "clean");
    assert_eq!(build.dependencies[0].recipe.parameters.len(), 2);
}

#[test]
fn diamond_dependency_shares_one_instance() {
    let namespace = resolve(module(vec![
        plain("a", vec![on("b"), on("c")]),
        plain("b", vec![on("d")]),
        plain("c", vec![on("d")]),
        plain("d", Vec::new()),
    ]))
    .unwrap();
    let a = namespace.get_here("a").unwrap();
    let b = namespace.get_here("b").unwrap();
    let c = namespace.get_here("c").unwrap();
    let d = namespace.get_here("d").unwrap();
    assert!(Rc::ptr_eq(&b.dependencies[0].recipe, &c.dependencies[0].recipe));
    assert!(Rc::ptr_eq(&b.dependencies[0].recipe, d));
    assert!(Rc::ptr_eq(&a.dependencies[0].recipe, b));
    assert!(Rc::ptr_eq(&a.dependencies[1].recipe, c));
    assert!(Rc::ptr_eq(&a.dependencies[0].recipe.dependencies[0].recipe, d));
}

#[test]
fn cycle_starts_at_the_recipe_that_is_met_again() {
    // a: b
    // b: c
    // c: b
    let a = plain("a", vec![on("b")]);
    let b = plain("b", vec![on("c")]);
    let c = recipe(
        name("c", 2, 0, 10),
        Vec::new(),
        vec![dependency(vec![name("b", 2, 3, 13)], Vec::new())],
        Vec::new(),
    );
    let error = resolve(module(vec![a, b, c])).unwrap_err();
    assert_error(
        error,
        13,
        2,
        3,
        1,
        CompileErrorKind::CircularRecipeDependency {
            recipe: "c".to_string(),
            circle: circle(&["b", "c", "b"]),
        },
    );
}

#[test]
fn long_cycle_holds_every_recipe_on_the_way() {
    let error = resolve(module(vec![
        plain("a", vec![on("b")]),
        plain("b", vec![on("c")]),
        plain("c", vec![on("d")]),
        plain("d", vec![on("a")]),
    ]))
    .unwrap_err();
    assert_eq!(
        error.kind,
        CompileErrorKind::CircularRecipeDependency {
            recipe: "d".to_string(),
            circle: circle(&["a", "b", "c", "d", "a"]),
        }
    );
}

#[test]
fn cycle_is_found_behind_resolved_dependencies() {
    // The first dependency of `a` resolves; the second leads back to `a`.
    let error = resolve(module(vec![
        plain("a", vec![on("c"), on("b")]),
        plain("b", vec![on("c"), on("a")]),
        plain("c", Vec::new()),
    ]))
    .unwrap_err();
    assert_eq!(
        error.kind,
        CompileErrorKind::CircularRecipeDependency {
            recipe: "b".to_string(),
            circle: circle(&["a", "b", "a"]),
        }
    );
}

#[test]
fn recipes_are_taken_in_the_order_of_declaration() {
    // Both recipes fail to link; the one declared first is reported.
    let first = resolve(module(vec![plain("z", vec![on("nowhere")]), plain("a", vec![on("a")])]))
        .unwrap_err();
    assert_eq!(
        first.kind,
        CompileErrorKind::UnknownDependency {
            recipe: "z".to_string(),
            unknown: Namepath::new(word("nowhere")),
        }
    );
    let second = resolve(module(vec![plain("a", vec![on("a")]), plain("z", vec![on("nowhere")])]))
        .unwrap_err();
    assert_eq!(
        second.kind,
        CompileErrorKind::CircularRecipeDependency {
            recipe: "a".to_string(),
            circle: circle(&["a", "a"]),
        }
    );
}

#[test]
fn linking_fails_before_any_variable_is_checked() {
    let broken = recipe(
        word("first"),
        Vec::new(),
        Vec::new(),
        vec![line(vec![interpolation(vec![word("missing")])])],
    );
    let error = resolve(module(vec![broken, plain("second", vec![on("nowhere")])])).unwrap_err();
    assert_eq!(
        error.kind,
        CompileErrorKind::UnknownDependency {
            recipe: "second".to_string(),
            unknown: Namepath::new(word("nowhere")),
        }
    );
}

#[test]
fn default_sees_earlier_parameters_only() {
    // a x y=x:
    let earlier = recipe(
        word("a"),
        vec![parameter(word("x"), None), parameter(word("y"), Some(mentions(vec![word("x")])))],
        Vec::new(),
        Vec::new(),
    );
    assert!(resolve(module(vec![earlier])).is_ok());

    // a x=y y:
    let later = recipe(
        word("a"),
        vec![
            parameter(name("x", 0, 2, 2), Some(mentions(vec![name("y", 0, 4, 4)]))),
            parameter(name("y", 0, 6, 6), None),
        ],
        Vec::new(),
        Vec::new(),
    );
    let error = resolve(module(vec![later])).unwrap_err();
    assert_error(error, 4, 0, 4, 1, undefined("y"));

    // a x=x:
    let itself = recipe(
        word("a"),
        vec![parameter(name("x", 0, 2, 2), Some(mentions(vec![name("x", 0, 4, 4)])))],
        Vec::new(),
        Vec::new(),
    );
    let error = resolve(module(vec![itself])).unwrap_err();
    assert_error(error, 4, 0, 4, 1, undefined("x"));
}

#[test]
fn dependency_argument_sees_every_parameter() {
    // b p:
    // a x y: (b y) (b x)
    let b = recipe(word("b"), vec![parameter(word("p"), None)], Vec::new(), Vec::new());
    let a = recipe(
        word("a"),
        vec![parameter(word("x"), None), parameter(word("y"), None)],
        vec![
            dependency(vec![word("b")], vec![mentions(vec![word("y")])]),
            dependency(vec![word("b")], vec![mentions(vec![word("x")])]),
        ],
        Vec::new(),
    );
    let namespace = resolve(module(vec![b, a])).unwrap();
    assert_eq!(dependency_names(&namespace, "a"), vec!["b", "b"]);
}

#[test]
fn dependency_argument_does_not_see_the_parameters_of_the_dependency() {
    // b p:
    // a: (b p)
    let b = recipe(word("b"), vec![parameter(word("p"), None)], Vec::new(), Vec::new());
    let a = recipe(
        word("a"),
        Vec::new(),
        vec![dependency(vec![word("b")], vec![mentions(vec![name("p", 1, 6, 11)])])],
        Vec::new(),
    );
    let error = resolve(module(vec![b, a])).unwrap_err();
    assert_error(error, 11, 1, 6, 1, undefined("p"));
}

#[test]
fn body_sees_parameters_assignments_and_constants() {
    let a = || {
        recipe(
            word("a"),
            vec![parameter(word("p"), None)],
            Vec::new(),
            vec![line(vec![
                interpolation(vec![word("p"), word("global")]),
                text(" "),
                interpolation(vec![word("HEX")]),
            ])],
        )
    };
    let mut complete = module(vec![a()]);
    complete.assignments.push(Assignment { name: word("global"), value: mentions(Vec::new()) });
    complete
        .constants
        .push(Constant { name: "HEX".to_string(), value: "0123456789abcdef".to_string() });
    assert!(resolve(complete).is_ok());

    let mut without_constant = module(vec![a()]);
    without_constant
        .assignments
        .push(Assignment { name: word("global"), value: mentions(Vec::new()) });
    assert_eq!(resolve(without_constant).unwrap_err().kind, undefined("HEX"));

    let mut without_assignment = module(vec![a()]);
    without_assignment
        .constants
        .push(Constant { name: "HEX".to_string(), value: "0123456789abcdef".to_string() });
    assert_eq!(resolve(without_assignment).unwrap_err().kind, undefined("global"));
}

#[test]
fn comment_lines_are_checked_unless_ignored() {
    let a = || {
        recipe(
            word("a"),
            Vec::new(),
            Vec::new(),
            vec![
                comment(vec![text("# "), interpolation(vec![word("hidden")])]),
                line(vec![text("echo")]),
            ],
        )
    };
    let mut ignoring = module(vec![a()]);
    ignoring.ignore_comments = true;
    assert!(resolve(ignoring).is_ok());

    let checking = module(vec![a()]);
    assert_eq!(resolve(checking).unwrap_err().kind, undefined("hidden"));
}

#[test]
fn ignoring_comments_does_not_hide_other_lines() {
    let a = recipe(
        word("a"),
        Vec::new(),
        Vec::new(),
        vec![
            comment(vec![interpolation(vec![word("hidden")])]),
            line(vec![interpolation(vec![word("shown")])]),
        ],
    );
    let mut ignoring = module(vec![a]);
    ignoring.ignore_comments = true;
    assert_eq!(resolve(ignoring).unwrap_err().kind, undefined("shown"));
}

#[test]
fn defaults_are_checked_before_arguments_before_the_body() {
    let b = || plain("b", Vec::new());
    let all_wrong = recipe(
        word("a"),
        vec![parameter(word("p"), Some(mentions(vec![word("in_default")])))],
        vec![dependency(vec![word("b")], vec![mentions(vec![word("in_argument")])])],
        vec![line(vec![interpolation(vec![word("in_body")])])],
    );
    assert_eq!(resolve(module(vec![all_wrong, b()])).unwrap_err().kind, undefined("in_default"));

    let two_wrong = recipe(
        word("a"),
        vec![parameter(word("p"), None)],
        vec![dependency(vec![word("b")], vec![mentions(vec![word("p"), word("in_argument")])])],
        vec![line(vec![interpolation(vec![word("in_body")])])],
    );
    assert_eq!(resolve(module(vec![two_wrong, b()])).unwrap_err().kind, undefined("in_argument"));

    let one_wrong = recipe(
        word("a"),
        vec![parameter(word("p"), None)],
        vec![dependency(vec![word("b")], vec![mentions(vec![word("p")])])],
        vec![line(vec![text("x"), interpolation(vec![word("p"), word("in_body")])])],
    );
    assert_eq!(resolve(module(vec![one_wrong, b()])).unwrap_err().kind, undefined("in_body"));
}

#[test]
fn variables_are_checked_in_the_order_of_the_namespace() {
    // `b` is linked before `a`, which depends on it, so `b` is checked first.
    let a = recipe(
        word("a"),
        Vec::new(),
        vec![on("b")],
        vec![line(vec![interpolation(vec![word("in_a")])])],
    );
    let b = recipe(
        word("b"),
        Vec::new(),
        Vec::new(),
        vec![line(vec![interpolation(vec![word("in_b")])])],
    );
    assert_eq!(resolve(module(vec![a, b])).unwrap_err().kind, undefined("in_b"));
}

#[test]
fn recipe_that_the_namespace_holds_is_not_linked_again() {
    let mut first = module(vec![recipe(
        word("a"),
        Vec::new(),
        Vec::new(),
        vec![line(vec![text("first")])],
    )]);
    first.namespace = ResolvedRecipes::new("root");
    let namespace = resolve(first).unwrap();

    let mut second = module(vec![
        plain("b", vec![on("a")]),
        recipe(word("a"), Vec::new(), vec![on("nowhere")], vec![line(vec![text("second")])]),
    ]);
    second.namespace = namespace;
    let namespace = resolve(second).unwrap();

    assert_eq!(names_of(&namespace), vec!["a", "b"]);
    let a = namespace.get_here("a").unwrap();
    assert_eq!(a.body, vec![line(vec![text("first")])]);
    assert!(Rc::ptr_eq(&namespace.get_here("b").unwrap().dependencies[0].recipe, a));
}

#[test]
fn recipes_of_the_namespace_are_checked_too() {
    let mut first = module(vec![recipe(
        word("a"),
        Vec::new(),
        Vec::new(),
        vec![line(vec![interpolation(vec![word("global")])])],
    )]);
    first.assignments.push(Assignment { name: word("global"), value: mentions(Vec::new()) });
    let namespace = resolve(first).unwrap();

    let mut second = module(vec![plain("b", Vec::new())]);
    second.namespace = namespace;
    assert_eq!(resolve(second).unwrap_err().kind, undefined("global"));
}

fn submodule(name: &str, recipes: Vec<UnresolvedRecipe>, children: Vec<ResolvedRecipes>) -> ResolvedRecipes {
    let mut module = module(recipes);
    let mut namespace = ResolvedRecipes::new(name);
    for child in children {
        namespace.add_module(child);
    }
    module.namespace = namespace;
    resolve(module).unwrap()
}

#[test]
fn dependency_in_a_submodule_shares_the_instance_of_the_submodule() {
    let bar = submodule("bar", vec![plain("baz", Vec::new())], Vec::new());
    let mut root = module(vec![
        plain("one", vec![dependency(vec![word("bar"), word("baz")], Vec::new())]),
        plain("two", vec![dependency(vec![word("bar"), word("baz")], Vec::new())]),
    ]);
    root.namespace.add_module(bar);
    let namespace = resolve(root).unwrap();

    let baz = namespace.get_path(&path(vec![word("bar"), word("baz")])).unwrap();
    assert!(Rc::ptr_eq(&namespace.get_here("one").unwrap().dependencies[0].recipe, baz));
    assert!(Rc::ptr_eq(&namespace.get_here("two").unwrap().dependencies[0].recipe, baz));
    assert_eq!(names_of(&namespace), vec!["one", "two"]);
}

#[test]
fn recipe_of_a_submodule_is_not_found_by_its_bare_name() {
    let bar = submodule("bar", vec![plain("baz", Vec::new())], Vec::new());
    let mut root = module(vec![plain("a", vec![on("baz")])]);
    root.namespace.add_module(bar);
    assert_eq!(
        resolve(root).unwrap_err().kind,
        CompileErrorKind::UnknownDependency {
            recipe: "a".to_string(),
            unknown: Namepath::new(word("baz")),
        }
    );
}

#[test]
fn local_recipe_may_bear_the_name_of_a_recipe_in_a_submodule() {
    let bar = submodule(
        "bar",
        vec![recipe(word("baz"), Vec::new(), Vec::new(), vec![line(vec![text("inner")])])],
        Vec::new(),
    );
    let mut root = module(vec![
        plain("a", vec![on("baz"), dependency(vec![word("bar"), word("baz")], Vec::new())]),
        recipe(word("baz"), Vec::new(), Vec::new(), vec![line(vec![text("outer")])]),
    ]);
    root.namespace.add_module(bar);
    let namespace = resolve(root).unwrap();
    let a = namespace.get_here("a").unwrap();
    assert_eq!(a.dependencies[0].recipe.body, vec![line(vec![text("outer")])]);
    assert_eq!(a.dependencies[1].recipe.body, vec![line(vec![text("inner")])]);
}

#[test]
fn path_that_leads_nowhere_falls_back_to_a_waiting_recipe_of_that_name() {
    // No module `x` exists. `b` still waits when `a` is linked, so the
    // dependency is linked to the module's own `b`.
    let namespace = resolve(module(vec![
        plain("a", vec![dependency(vec![word("x"), word("b")], Vec::new())]),
        plain("b", Vec::new()),
    ]))
    .unwrap();
    let a = namespace.get_here("a").unwrap();
    assert!(Rc::ptr_eq(&a.dependencies[0].recipe, namespace.get_here("b").unwrap()));
}

#[test]
fn path_that_leads_nowhere_is_unknown_once_the_recipe_of_that_name_is_resolved() {
    // `b` is declared first and is resolved when `a` is linked.
    let error = resolve(module(vec![
        plain("b", Vec::new()),
        plain("a", vec![dependency(vec![word("x"), word("b")], Vec::new())]),
    ]))
    .unwrap_err();
    assert_eq!(
        error.kind,
        CompileErrorKind::UnknownDependency {
            recipe: "a".to_string(),
            unknown: path(vec![word("x"), word("b")]),
        }
    );
}

#[test]
fn path_that_leads_nowhere_closes_a_cycle_by_its_leaf() {
    let error = resolve(module(vec![plain(
        "a",
        vec![dependency(vec![word("x"), name("a", 0, 6, 6)], Vec::new())],
    )]))
    .unwrap_err();
    assert_error(
        error,
        6,
        0,
        6,
        1,
        CompileErrorKind::CircularRecipeDependency {
            recipe: "a".to_string(),
            circle: circle(&["a", "a"]),
        },
    );
}

#[test]
fn empty_worklist_returns_the_namespace_as_it_was() {
    let bar = submodule("bar", vec![plain("baz", Vec::new())], Vec::new());
    let mut root = module(Vec::new());
    root.namespace = ResolvedRecipes::new("root");
    root.namespace.add_module(bar);
    let namespace = resolve(root).unwrap();
    assert!(namespace.values_here().is_empty());
    assert!(namespace.get_path(&path(vec![word("bar"), word("baz")])).is_some());
}

#[test]
fn recipe_may_depend_on_its_namesake_in_a_submodule() {
    let inner = submodule(
        "m",
        vec![recipe(word("a"), Vec::new(), Vec::new(), vec![line(vec![text("inner")])])],
        Vec::new(),
    );
    let mut root = module(vec![plain("a", vec![dependency(vec![word("m"), word("a")], Vec::new())])]);
    root.namespace.add_module(inner);
    let namespace = resolve(root).unwrap();
    let a = namespace.get_here("a").unwrap();
    assert_eq!(a.dependencies[0].recipe.body, vec![line(vec![text("inner")])]);
    assert!(a.body.is_empty());
}

#[test]
fn first_failing_dependency_is_reported() {
    // The first dependency is unknown, the second would close a cycle.
    let error = resolve(module(vec![plain("a", vec![on("nowhere"), on("a")])])).unwrap_err();
    assert_eq!(
        error.kind,
        CompileErrorKind::UnknownDependency {
            recipe: "a".to_string(),
            unknown: Namepath::new(word("nowhere")),
        }
    );
    // The other way round.
    let error = resolve(module(vec![plain("a", vec![on("a"), on("nowhere")])])).unwrap_err();
    assert_eq!(
        error.kind,
        CompileErrorKind::CircularRecipeDependency {
            recipe: "a".to_string(),
            circle: circle(&["a", "a"]),
        }
    );
}
