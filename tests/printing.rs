use type_pretty::{
    imports_of, letter_text, AssignName, Import, ImportDefinition, Printer, Publicity, Type, TypeVar, TypedDefinition,
    TypedModule, UnqualifiedImport,
};

fn named(module: &str, name: &str, args: Vec<Type>) -> Type {
    Type::Named {
        name: name.to_string(),
        module: module.to_string(),
        package: "pkg".to_string(),
        publicity: Publicity::Public,
        args,
    }
}

fn unbound(id: u64) -> Type {
    Type::Var { type_: Box::new(TypeVar::Unbound { id }) }
}

#[test]
fn letters_follow_discovery_order() {
    assert_eq!(letter_text(0), "a");
    assert_eq!(letter_text(1), "b");
    assert_eq!(letter_text(2), "c");
    assert_eq!(letter_text(26), "aa");
    assert_eq!(letter_text(51), "az");
    assert_eq!(letter_text(52), "ba");
    assert_eq!(letter_text(701), "zz");
    assert_eq!(letter_text(702), "aaa");
}

#[test]
fn variables_named_by_first_sight_not_id() {
    let mut printer = Printer::new();
    let t = Type::Tuple { elems: vec![unbound(900), unbound(4), unbound(900), unbound(1)] };
    assert_eq!(printer.pretty_print(&t, 0), "#(a, b, a, c)");
}

#[test]
fn seeded_names_are_used() {
    let mut names = im::HashMap::new();
    names.insert(7u64, "x".to_string());
    let mut printer = Printer::new();
    printer.with_names(names);
    let t = Type::Fn { args: vec![unbound(7)], retrn: Box::new(unbound(8)) };
    assert_eq!(printer.pretty_print(&t, 0), "fn(x) -> a");
}

#[test]
fn clash_with_other_module_is_qualified() {
    let mut printer = Printer::new();
    assert_eq!(printer.pretty_print(&named("a", "Name", vec![]), 0), "Name");
    assert_eq!(printer.pretty_print(&named("b", "Name", vec![]), 0), "b.Name");
    assert_eq!(printer.pretty_print(&named("a", "Name", vec![]), 0), "Name");
}

#[test]
fn same_module_twice_is_not_qualified() {
    let mut printer = Printer::new();
    assert_eq!(printer.pretty_print(&named("a", "Name", vec![]), 0), "Name");
    assert_eq!(printer.pretty_print(&named("a", "Name", vec![]), 0), "Name");
}

#[test]
fn printing_twice_gives_the_same_text() {
    let mut printer = Printer::new();
    printer.with_imports_context("my_module".to_string(), vec![]);
    let t = Type::Fn {
        args: vec![named("other", "Box", vec![unbound(3)]), unbound(9)],
        retrn: Box::new(unbound(3)),
    };
    let first = printer.pretty_print(&t, 0);
    assert_eq!(first, "fn(other.Box(a), b) -> a");
    assert_eq!(printer.pretty_print(&t, 0), first);
}

#[test]
fn initial_indent_prefixes_and_indents() {
    let mut printer = Printer::new();
    assert_eq!(printer.pretty_print(&named("gleam", "Int", vec![]), 4), "    Int");
    let mut printer = Printer::new();
    let floats: Vec<Type> = (0..13).map(|_| named("gleam", "Float", vec![])).collect();
    let t = Type::Fn { args: floats, retrn: Box::new(named("gleam", "Float", vec![])) };
    let mut expected = String::from("  fn(\n");
    for _ in 0..13 {
        expected.push_str("    Float,\n");
    }
    expected.push_str("  ) -> Float");
    assert_eq!(printer.pretty_print(&t, 2), expected);
}

#[test]
fn exactly_eighty_columns_stays_on_one_line() {
    let wide = "A".repeat(69);
    let t = Type::Fn { args: vec![named("gleam", &wide, vec![])], retrn: Box::new(named("gleam", "Int", vec![])) };
    let text = Printer::new().pretty_print(&t, 0);
    assert_eq!(text, format!("fn({}) -> Int", wide));
    assert_eq!(text.len(), 80);

    let wider = "A".repeat(70);
    let t = Type::Fn { args: vec![named("gleam", &wider, vec![])], retrn: Box::new(named("gleam", "Int", vec![])) };
    assert_eq!(Printer::new().pretty_print(&t, 0), format!("fn({}) ->\n  Int", wider));
}

#[test]
fn named_type_arguments_wrap_with_trailing_comma() {
    let long = |n: &str| named("gleam", n, vec![]);
    let args: Vec<Type> = ["Aaaaaaaaaaaaaaaaaaaa", "Bbbbbbbbbbbbbbbbbbbb", "Cccccccccccccccccccc", "Dddddddddddddddddddd"]
        .iter()
        .map(|n| long(n))
        .collect();
    let t = named("gleam", "Quad", args);
    assert_eq!(
        Printer::new().pretty_print(&t, 0),
        "Quad(\n  Aaaaaaaaaaaaaaaaaaaa,\n  Bbbbbbbbbbbbbbbbbbbb,\n  Cccccccccccccccccccc,\n  Dddddddddddddddddddd,\n)"
    );
}

#[test]
fn empty_tuple_prints_bare() {
    assert_eq!(Printer::new().pretty_print(&Type::Tuple { elems: vec![] }, 0), "#()");
}

#[test]
fn unqualified_import_keeps_arguments() {
    let mut printer = Printer::new();
    printer.with_imports_context(
        "my_module".to_string(),
        vec![Import {
            module: "other".to_string(),
            renaming: Some("o".to_string()),
            unqualified_types: vec![UnqualifiedImport { name: "Box".to_string(), as_name: None }],
        }],
    );
    let t = named("other", "Box", vec![named("other", "Item", vec![])]);
    assert_eq!(printer.pretty_print(&t, 0), "Box(o.Item)");
}

#[test]
fn imports_of_module_definitions() {
    let module = TypedModule {
        name: "my_module".to_string(),
        definitions: vec![
            TypedDefinition::Import(ImportDefinition {
                module: "a/b".to_string(),
                as_name: Some(AssignName::Variable("c".to_string())),
                unqualified_types: vec![UnqualifiedImport { name: "T".to_string(), as_name: Some("U".to_string()) }],
            }),
            TypedDefinition::Import(ImportDefinition {
                module: "d".to_string(),
                as_name: Some(AssignName::Discard("_d".to_string())),
                unqualified_types: vec![],
            }),
        ],
    };
    let imports = imports_of(&module);
    assert_eq!(imports.len(), 2);
    assert_eq!(imports[0].module, "a/b");
    assert_eq!(imports[0].renaming, Some("c".to_string()));
    assert_eq!(imports[0].unqualified_types[0].name, "T");
    assert_eq!(imports[0].unqualified_types[0].as_name, Some("U".to_string()));
    assert_eq!(imports[1].module, "d");
    assert_eq!(imports[1].renaming, None);
}

#[test]
fn printing_twice_without_context_gives_the_same_text() {
    let mut printer = Printer::new();
    let t = Type::Fn { args: vec![named("m", "a", vec![])], retrn: Box::new(unbound(1)) };
    assert_eq!(printer.pretty_print(&t, 0), "fn(a) -> a");
    assert_eq!(printer.pretty_print(&t, 0), "fn(a) -> a");
}

#[test]
fn variable_letters_do_not_clash_with_type_names() {
    let mut printer = Printer::new();
    assert_eq!(printer.pretty_print(&unbound(4), 0), "a");
    assert_eq!(printer.pretty_print(&named("m", "a", vec![]), 0), "a");
    assert_eq!(printer.pretty_print(&named("n", "a", vec![]), 0), "n.a");
}

#[test]
fn distinct_ids_named_in_discovery_order() {
    let mut printer = Printer::new();
    let t = Type::Tuple { elems: vec![unbound(30), unbound(2), unbound(30), unbound(99), unbound(2)] };
    assert_eq!(printer.pretty_print(&t, 0), "#(a, b, a, c, b)");
    let renamed = Type::Tuple {
        elems: vec![
            Type::Var { type_: Box::new(TypeVar::Generic { id: 7 }) },
            unbound(8),
            Type::Var { type_: Box::new(TypeVar::Generic { id: 7 }) },
            unbound(1),
            unbound(8),
        ],
    };
    assert_eq!(Printer::new().pretty_print(&renamed, 0), "#(a, b, a, c, b)");
}
