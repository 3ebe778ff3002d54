use type_pretty::{pretty_print, Import, Printer, Publicity, Type, TypeVar, UnqualifiedImport};

fn named(module: &str, name: &str, args: Vec<Type>) -> Type {
    Type::Named {
        name: name.to_string(),
        module: module.to_string(),
        package: "whatever".to_string(),
        publicity: Publicity::Public,
        args,
    }
}

fn int_type() -> Type {
    named("gleam", "Int", vec![])
}

fn float_type() -> Type {
    named("gleam", "Float", vec![])
}

fn fn_(args: Vec<Type>, retrn: Type) -> Type {
    Type::Fn { args, retrn: Box::new(retrn) }
}

fn tuple(elems: Vec<Type>) -> Type {
    Type::Tuple { elems }
}

fn var(v: TypeVar) -> Type {
    Type::Var { type_: Box::new(v) }
}

fn my_type() -> Type {
    Type::Named {
        publicity: Publicity::Public,
        name: "MyType".to_string(),
        module: "external_module".to_string(),
        package: "some_package".to_string(),
        args: vec![],
    }
}

#[test]
fn next_letter_test() {
    let mut printer = Printer::new();
    assert_eq!(printer.next_letter().as_str(), "a");
    assert_eq!(printer.next_letter().as_str(), "b");
    assert_eq!(printer.next_letter().as_str(), "c");
    assert_eq!(printer.next_letter().as_str(), "d");
    assert_eq!(printer.next_letter().as_str(), "e");
    assert_eq!(printer.next_letter().as_str(), "f");
    assert_eq!(printer.next_letter().as_str(), "g");
    assert_eq!(printer.next_letter().as_str(), "h");
    assert_eq!(printer.next_letter().as_str(), "i");
    assert_eq!(printer.next_letter().as_str(), "j");
    assert_eq!(printer.next_letter().as_str(), "k");
    assert_eq!(printer.next_letter().as_str(), "l");
    assert_eq!(printer.next_letter().as_str(), "m");
    assert_eq!(printer.next_letter().as_str(), "n");
    assert_eq!(printer.next_letter().as_str(), "o");
    assert_eq!(printer.next_letter().as_str(), "p");
    assert_eq!(printer.next_letter().as_str(), "q");
    assert_eq!(printer.next_letter().as_str(), "r");
    assert_eq!(printer.next_letter().as_str(), "s");
    assert_eq!(printer.next_letter().as_str(), "t");
    assert_eq!(printer.next_letter().as_str(), "u");
    assert_eq!(printer.next_letter().as_str(), "v");
    assert_eq!(printer.next_letter().as_str(), "w");
    assert_eq!(printer.next_letter().as_str(), "x");
    assert_eq!(printer.next_letter().as_str(), "y");
    assert_eq!(printer.next_letter().as_str(), "z");
    assert_eq!(printer.next_letter().as_str(), "aa");
    assert_eq!(printer.next_letter().as_str(), "ab");
    assert_eq!(printer.next_letter().as_str(), "ac");
    assert_eq!(printer.next_letter().as_str(), "ad");
    assert_eq!(printer.next_letter().as_str(), "ae");
    assert_eq!(printer.next_letter().as_str(), "af");
    assert_eq!(printer.next_letter().as_str(), "ag");
    assert_eq!(printer.next_letter().as_str(), "ah");
    assert_eq!(printer.next_letter().as_str(), "ai");
    assert_eq!(printer.next_letter().as_str(), "aj");
    assert_eq!(printer.next_letter().as_str(), "ak");
    assert_eq!(printer.next_letter().as_str(), "al");
    assert_eq!(printer.next_letter().as_str(), "am");
    assert_eq!(printer.next_letter().as_str(), "an");
    assert_eq!(printer.next_letter().as_str(), "ao");
    assert_eq!(printer.next_letter().as_str(), "ap");
    assert_eq!(printer.next_letter().as_str(), "aq");
    assert_eq!(printer.next_letter().as_str(), "ar");
    assert_eq!(printer.next_letter().as_str(), "as");
    assert_eq!(printer.next_letter().as_str(), "at");
    assert_eq!(printer.next_letter().as_str(), "au");
    assert_eq!(printer.next_letter().as_str(), "av");
    assert_eq!(printer.next_letter().as_str(), "aw");
    assert_eq!(printer.next_letter().as_str(), "ax");
    assert_eq!(printer.next_letter().as_str(), "ay");
    assert_eq!(printer.next_letter().as_str(), "az");
    assert_eq!(printer.next_letter().as_str(), "ba");
    assert_eq!(printer.next_letter().as_str(), "bb");
    assert_eq!(printer.next_letter().as_str(), "bc");
    assert_eq!(printer.next_letter().as_str(), "bd");
    assert_eq!(printer.next_letter().as_str(), "be");
    assert_eq!(printer.next_letter().as_str(), "bf");
    assert_eq!(printer.next_letter().as_str(), "bg");
    assert_eq!(printer.next_letter().as_str(), "bh");
    assert_eq!(printer.next_letter().as_str(), "bi");
    assert_eq!(printer.next_letter().as_str(), "bj");
    assert_eq!(printer.next_letter().as_str(), "bk");
    assert_eq!(printer.next_letter().as_str(), "bl");
    assert_eq!(printer.next_letter().as_str(), "bm");
    assert_eq!(printer.next_letter().as_str(), "bn");
    assert_eq!(printer.next_letter().as_str(), "bo");
    assert_eq!(printer.next_letter().as_str(), "bp");
    assert_eq!(printer.next_letter().as_str(), "bq");
    assert_eq!(printer.next_letter().as_str(), "br");
    assert_eq!(printer.next_letter().as_str(), "bs");
    assert_eq!(printer.next_letter().as_str(), "bt");
    assert_eq!(printer.next_letter().as_str(), "bu");
    assert_eq!(printer.next_letter().as_str(), "bv");
    assert_eq!(printer.next_letter().as_str(), "bw");
    assert_eq!(printer.next_letter().as_str(), "bx");
    assert_eq!(printer.next_letter().as_str(), "by");
    assert_eq!(printer.next_letter().as_str(), "bz");
}

#[test]
fn pretty_print_test() {
    let mut printer = Printer::new();
    assert_eq!("Int", printer.pretty_print(&named("whatever", "Int", vec![]), 0));

    let mut printer = Printer::new();
    let pair = Type::Named {
        module: "themodule".to_string(),
        package: "whatever".to_string(),
        name: "Pair".to_string(),
        publicity: Publicity::Public,
        args: vec![named("whatever", "Int", vec![]), named("whatever", "Bool", vec![])],
    };
    assert_eq!("Pair(Int, Bool)", printer.pretty_print(&pair, 0));

    let mut printer = Printer::new();
    let f = Type::Fn {
        args: vec![named("whatever", "Int", vec![]), named("whatever", "Bool", vec![])],
        retrn: Box::new(named("whatever", "Bool", vec![])),
    };
    assert_eq!("fn(Int, Bool) -> Bool", printer.pretty_print(&f, 0));

    let mut printer = Printer::new();
    let linked = var(TypeVar::Link { type_: Box::new(named("whatever", "Int", vec![])) });
    assert_eq!("Int", printer.pretty_print(&linked, 0));

    let mut printer = Printer::new();
    assert_eq!("a", printer.pretty_print(&var(TypeVar::Unbound { id: 2231 }), 0));

    let mut printer = Printer::new();
    let f = fn_(vec![var(TypeVar::Unbound { id: 78 })], var(TypeVar::Unbound { id: 2 }));
    assert_eq!("fn(a) -> b", printer.pretty_print(&f, 0));

    let mut printer = Printer::new();
    let f = fn_(vec![var(TypeVar::Generic { id: 78 })], var(TypeVar::Generic { id: 2 }));
    assert_eq!("fn(a) -> b", printer.pretty_print(&f, 0));
}

#[test]
fn function_test() {
    assert_eq!(pretty_print(fn_(vec![], int_type())), "fn() -> Int");

    assert_eq!(pretty_print(fn_(vec![int_type(), int_type(), int_type()], int_type())), "fn(Int, Int, Int) -> Int");

    assert_eq!(
        pretty_print(fn_(
            vec![
                float_type(),
                float_type(),
                float_type(),
                float_type(),
                float_type(),
                float_type(),
                float_type(),
                float_type(),
                float_type(),
                float_type(),
                float_type(),
                float_type(),
                float_type()
            ],
            float_type()
        )),
        "fn(
  Float,
  Float,
  Float,
  Float,
  Float,
  Float,
  Float,
  Float,
  Float,
  Float,
  Float,
  Float,
  Float,
) -> Float"
    );

    assert_eq!(
        pretty_print(fn_(
            vec![
                tuple(vec![float_type(), float_type(), float_type(), float_type(), float_type(), float_type()]),
                float_type(),
                float_type(),
                float_type(),
                float_type(),
                float_type(),
                float_type(),
                float_type()
            ],
            float_type()
        )),
        "fn(
  #(Float, Float, Float, Float, Float, Float),
  Float,
  Float,
  Float,
  Float,
  Float,
  Float,
  Float,
) -> Float"
    );

    assert_eq!(
        pretty_print(fn_(
            vec![tuple(vec![float_type(), float_type(), float_type(), float_type(), float_type(), float_type()])],
            tuple(vec![
                tuple(vec![float_type(), float_type(), float_type(), float_type(), float_type(), float_type()]),
                tuple(vec![float_type(), float_type(), float_type(), float_type(), float_type(), float_type()]),
            ]),
        )),
        "fn(#(Float, Float, Float, Float, Float, Float)) ->
  #(
    #(Float, Float, Float, Float, Float, Float),
    #(Float, Float, Float, Float, Float, Float),
  )"
    );
}

#[test]
fn qualify_external_imported_modules_qualified() {
    let t = my_type();
    let mut printer = Printer::new();
    printer.with_imports_context(
        "my_module".to_string(),
        vec![Import { module: "external_module".to_string(), renaming: None, unqualified_types: vec![] }],
    );
    assert_eq!(printer.pretty_print(&t, 0), "external_module.MyType")
}

#[test]
fn qualify_external_unimported_modules() {
    let t = my_type();
    let mut printer = Printer::new();
    printer.with_imports_context("my_module".to_string(), vec![]);
    assert_eq!(printer.pretty_print(&t, 0), "external_module.MyType")
}

#[test]
fn qualify_external_renamed_modules() {
    let t = my_type();
    let mut printer = Printer::new();
    printer.with_imports_context(
        "my_module".to_string(),
        vec![Import {
            module: "external_module".to_string(),
            renaming: Some("renamed_module".to_string()),
            unqualified_types: vec![],
        }],
    );
    assert_eq!(printer.pretty_print(&t, 0), "renamed_module.MyType")
}

#[test]
fn do_not_qualify_types_defined_in_same_module() {
    let t = Type::Named {
        publicity: Publicity::Public,
        name: "MyType".to_string(),
        module: "my_module".to_string(),
        package: "my_package".to_string(),
        args: vec![],
    };
    let mut printer = Printer::new();
    printer.with_imports_context(
        "my_module".to_string(),
        vec![Import {
            module: "my_module".to_string(),
            renaming: Some("renamed_module".to_string()),
            unqualified_types: vec![],
        }],
    );
    assert_eq!(printer.pretty_print(&t, 0), "MyType")
}

#[test]
fn do_not_qualify_gleam_prelude_types() {
    let t = int_type();
    let mut printer = Printer::new();
    printer.with_imports_context("my_module".to_string(), vec![]);
    assert_eq!(printer.pretty_print(&t, 0), "Int")
}

#[test]
fn do_not_qualify_types_with_unqualified_imports() {
    let t = my_type();
    let mut printer = Printer::new();
    printer.with_imports_context(
        "my_module".to_string(),
        vec![Import {
            module: "external_module".to_string(),
            renaming: None,
            unqualified_types: vec![UnqualifiedImport { name: "MyType".to_string(), as_name: None }],
        }],
    );
    assert_eq!(printer.pretty_print(&t, 0), "MyType")
}

#[test]
fn do_not_qualify_types_with_unqualified_imports_and_rename() {
    let t = my_type();
    let mut printer = Printer::new();
    printer.with_imports_context(
        "my_module".to_string(),
        vec![Import {
            module: "external_module".to_string(),
            renaming: None,
            unqualified_types: vec![UnqualifiedImport {
                name: "MyType".to_string(),
                as_name: Some("RenamedType".to_string()),
            }],
        }],
    );
    assert_eq!(printer.pretty_print(&t, 0), "RenamedType")
}
