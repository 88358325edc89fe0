use recipe_resolver::{
    Assignment, CompileError, CompileErrorKind, Constant, Fragment, Line, Name, Namepath, Recipe,
    RecipeResolver, ResolvedRecipes, Settings, Table, UnresolvedDependency, UnresolvedRecipe,
};

fn name(lexeme: &str, line: usize, column: usize, offset: usize) -> Name {
    Name::new(lexeme, line, column, offset, lexeme.len())
}

fn path(mut segments: Vec<Name>) -> Namepath {
    let mut path = Namepath::new(segments.remove(0));
    for segment in segments {
        path.push(segment);
    }
    path
}

fn text_line(text: &str) -> Line {
    Line { fragments: vec![Fragment::Text { text: text.to_string() }], comment: false }
}

fn recipe(name: Name, dependencies: Vec<Namepath>, body: Vec<Line>) -> UnresolvedRecipe {
    UnresolvedRecipe {
        name,
        parameters: Vec::new(),
        dependencies: dependencies
            .into_iter()
            .map(|recipe| UnresolvedDependency { recipe, arguments: Vec::new() })
            .collect(),
        body,
    }
}

fn resolve(
    recipes: Vec<UnresolvedRecipe>,
    namespace: ResolvedRecipes,
) -> Result<ResolvedRecipes, CompileError> {
    let assignments: Table<Assignment> = Table::new();
    let constants: Table<Constant> = Table::new();
    let settings = Settings { ignore_comments: false };
    let mut worklist = Table::new();
    for recipe in recipes {
        worklist.insert(recipe);
    }
    RecipeResolver::resolve_recipes(&assignments, &constants, &settings, worklist, namespace)
}

/// Runs a recipe whose lines are all of the form `@echo WORD`: first its
/// dependencies, then its own lines. Returns what the lines print.
fn run(recipe: &Recipe, output: &mut String) {
    for dependency in &recipe.dependencies {
        run(&dependency.recipe, output);
    }
    for line in &recipe.body {
        let mut command = String::new();
        for fragment in &line.fragments {
            match fragment {
                Fragment::Text { text } => command.push_str(text),
                Fragment::Interpolation { .. } => panic!("no interpolation in these recipes"),
            }
        }
        let command = command.trim_start().trim_start_matches('@');
        let word = command.strip_prefix("echo ").expect("an echo command");
        output.push_str(word);
        output.push('\n');
    }
}

/// The module `bar`, from the source `baz:\n @echo BAZ`.
fn module_bar() -> ResolvedRecipes {
    let baz = recipe(name("baz", 0, 0, 0), Vec::new(), vec![text_line("@echo BAZ")]);
    resolve(vec![baz], ResolvedRecipes::new("bar")).unwrap()
}

/// The module `foo`, from the source `mod bar\nbaz: \n @echo <word>`.
fn module_foo(word: &str) -> ResolvedRecipes {
    let mut foo = ResolvedRecipes::new("foo");
    foo.add_module(module_bar());
    let command = format!("@echo {}", word);
    let baz = recipe(name("baz", 1, 0, 8), Vec::new(), vec![text_line(&command)]);
    resolve(vec![baz], foo).unwrap()
}

fn render(error: &CompileError, source: &str) -> String {
    let message = match &error.kind {
        CompileErrorKind::UnknownDependency { recipe, unknown } => {
            let mut written = String::new();
            let (first, rest) = unknown.split_first();
            written.push_str(first.lexeme());
            for segment in rest {
                written.push_str("::");
                written.push_str(segment.lexeme());
            }
            format!("Recipe `{}` has unknown dependency `{}`", recipe, written)
        }
        other => panic!("unexpected error {:?}", other),
    };
    let line = source.lines().nth(error.token.line).unwrap();
    let number = error.token.line + 1;
    format!(
        "error: {}\n ——▶ justfile:{}:{}\n  │\n{} │ {}\n  │ {}{}\n",
        message,
        number,
        error.token.column + 1,
        number,
        line,
        " ".repeat(error.token.column),
        "^".repeat(error.token.length),
    )
}

#[test]
fn recipe_dependency_nested_module() {
    // mod foo
    //
    // baz: foo::bar::baz
    let mut root = ResolvedRecipes::new("");
    root.add_module(module_foo("FOO"));
    let dependency =
        path(vec![name("foo", 2, 5, 14), name("bar", 2, 10, 19), name("baz", 2, 15, 24)]);
    let baz = recipe(name("baz", 2, 0, 9), vec![dependency], Vec::new());
    let namespace = resolve(vec![baz], root).unwrap();

    let mut output = String::new();
    run(namespace.get_here("baz").unwrap(), &mut output);
    assert_eq!(output, "BAZ\n");
}

#[test]
fn recipe_dependency_nested_module2() {
    // mod foo
    // baz: foo::baz
    let mut root = ResolvedRecipes::new("");
    root.add_module(module_foo("BAR"));
    let dependency = path(vec![name("foo", 1, 5, 13), name("baz", 1, 10, 18)]);
    let baz = recipe(name("baz", 1, 0, 8), vec![dependency], Vec::new());
    let namespace = resolve(vec![baz], root).unwrap();

    let mut output = String::new();
    run(namespace.get_here("baz").unwrap(), &mut output);
    assert_eq!(output, "BAR\n");
}

#[test]
fn recipe_dependency_on_module_fails() {
    let source = "mod foo\nbaz: foo::bar\n";
    let mut root = ResolvedRecipes::new("");
    root.add_module(module_foo("BAR"));
    let dependency = path(vec![name("foo", 1, 5, 13), name("bar", 1, 10, 18)]);
    let baz = recipe(name("baz", 1, 0, 8), vec![dependency], Vec::new());
    let error = resolve(vec![baz], root).unwrap_err();

    assert_eq!(
        render(&error, source),
        "error: Recipe `baz` has unknown dependency `foo::bar`
 ——▶ justfile:2:11
  │
2 │ baz: foo::bar
  │           ^^^
"
    );
}
