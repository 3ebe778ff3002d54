use type_pretty::{
    get_inlay_hints, FunctionLiteralKind, InlayHint, InlayHintsConfig, LineNumbers, Position, Publicity, SrcSpan,
    Type, TypeAst, TypeVar, TypedArg, TypedDefinition, TypedExpr, TypedFunction, TypedModule,
    TypedPipelineAssignment, TypedStatement,
};

// fn f(x, y: Int) {
//   a |> b
//   |> c
// }
const SRC: &str = "fn f(x, y: Int) {\n  a |> b\n  |> c\n}\n";

fn prelude(name: &str) -> Type {
    Type::Named {
        name: name.to_string(),
        module: "gleam".to_string(),
        package: "".to_string(),
        publicity: Publicity::Public,
        args: vec![],
    }
}

fn span(start: u32, end: u32) -> SrcSpan {
    SrcSpan { start, end }
}

fn all_on() -> InlayHintsConfig {
    InlayHintsConfig { parameter_types: true, return_types: true, pipelines: true }
}

fn var_expr(name: &str, end: u32, type_: Type) -> TypedExpr {
    TypedExpr::Var { location: span(end - 1, end), type_, name: name.to_string() }
}

fn step(value: TypedExpr) -> TypedPipelineAssignment {
    TypedPipelineAssignment { location: value.location(), value: Box::new(value) }
}

fn module_with(f: TypedFunction) -> TypedModule {
    TypedModule { name: "my_module".to_string(), definitions: vec![TypedDefinition::Function(f)] }
}

fn function(arguments: Vec<TypedArg>, body: Vec<TypedStatement>, return_annotation: Option<TypeAst>) -> TypedFunction {
    TypedFunction { location: span(0, 15), arguments, body, return_annotation, return_type: prelude("Int") }
}

fn params(annotate_x: bool) -> Vec<TypedArg> {
    vec![
        TypedArg {
            type_: prelude("Int"),
            annotation: if annotate_x { Some(TypeAst { location: span(5, 6) }) } else { None },
            location: span(5, 6),
        },
        TypedArg { type_: prelude("Int"), annotation: Some(TypeAst { location: span(11, 14) }), location: span(8, 14) },
    ]
}

fn summary(hints: &[InlayHint]) -> Vec<(u32, u32, String, bool)> {
    hints.iter().map(|h| (h.position.line, h.position.character, h.label.clone(), h.padding_left)).collect()
}

fn pipeline(steps: Vec<TypedExpr>, finally: TypedExpr) -> TypedExpr {
    let mut steps = steps.into_iter().map(step);
    let first_value = steps.next().unwrap();
    TypedExpr::Pipeline {
        location: span(20, finally.location().end),
        first_value,
        assignments: steps.collect(),
        finally: Box::new(finally),
    }
}

#[test]
fn line_numbers_of_source() {
    let lines = LineNumbers::new(SRC);
    assert_eq!(lines.line_starts, vec![0, 18, 27, 34, 36]);
    assert_eq!(lines.line_number(0), 1);
    assert_eq!(lines.line_number(17), 1);
    assert_eq!(lines.line_number(18), 2);
    assert_eq!(lines.position(26), Position { line: 1, character: 8 });
    assert_eq!(lines.position(35), Position { line: 3, character: 1 });
}

#[test]
fn parameter_and_return_hints() {
    let lines = LineNumbers::new(SRC);
    let hints = get_inlay_hints(all_on(), module_with(function(params(false), vec![], None)), &lines);
    assert_eq!(
        summary(&hints),
        vec![(0, 6, ": Int".to_string(), false), (0, 15, "-> Int".to_string(), true)]
    );
}

#[test]
fn annotated_parameters_and_returns_get_no_hints() {
    let lines = LineNumbers::new(SRC);
    let f = function(params(true), vec![], Some(TypeAst { location: span(17, 20) }));
    let hints = get_inlay_hints(all_on(), module_with(f), &lines);
    assert!(hints.is_empty());
}

#[test]
fn hints_follow_the_configuration() {
    let lines = LineNumbers::new(SRC);
    let config = InlayHintsConfig { parameter_types: false, return_types: true, pipelines: true };
    let hints = get_inlay_hints(config, module_with(function(params(false), vec![], None)), &lines);
    assert_eq!(summary(&hints), vec![(0, 15, "-> Int".to_string(), true)]);

    let config = InlayHintsConfig { parameter_types: true, return_types: false, pipelines: true };
    let hints = get_inlay_hints(config, module_with(function(params(false), vec![], None)), &lines);
    assert_eq!(summary(&hints), vec![(0, 6, ": Int".to_string(), false)]);
}

#[test]
fn pipeline_steps_on_one_line_collapse() {
    let lines = LineNumbers::new(SRC);
    let p = pipeline(
        vec![
            var_expr("a", 21, prelude("Int")),
            var_expr("b", 26, prelude("String")),
            var_expr("c", 33, prelude("Bool")),
        ],
        var_expr("d", 35, prelude("Nil")),
    );
    let f = function(params(true), vec![TypedStatement::Expression(p)], Some(TypeAst { location: span(17, 20) }));
    let hints = get_inlay_hints(all_on(), module_with(f), &lines);
    assert_eq!(
        summary(&hints),
        vec![
            (1, 8, "String".to_string(), true),
            (2, 6, "Bool".to_string(), true),
            (3, 1, "Nil".to_string(), true),
        ]
    );
}

#[test]
fn pipeline_final_value_on_last_step_line_gets_no_hint() {
    let lines = LineNumbers::new(SRC);
    let p = pipeline(
        vec![
            var_expr("a", 21, prelude("Int")),
            var_expr("b", 26, prelude("String")),
            var_expr("c", 31, prelude("Bool")),
        ],
        var_expr("d", 33, prelude("Nil")),
    );
    let f = function(params(true), vec![TypedStatement::Expression(p)], Some(TypeAst { location: span(17, 20) }));
    let hints = get_inlay_hints(all_on(), module_with(f), &lines);
    assert_eq!(summary(&hints), vec![(1, 8, "String".to_string(), true)]);
}

#[test]
fn literal_pipeline_steps_get_no_hint() {
    let lines = LineNumbers::new(SRC);
    let literal = TypedExpr::Int { location: span(20, 26), type_: prelude("Int"), value: "1".to_string() };
    let p = pipeline(vec![literal, var_expr("c", 33, prelude("Bool"))], var_expr("d", 35, prelude("Nil")));
    let f = function(params(true), vec![TypedStatement::Expression(p)], Some(TypeAst { location: span(17, 20) }));
    let hints = get_inlay_hints(all_on(), module_with(f), &lines);
    assert_eq!(summary(&hints), vec![(2, 6, "Bool".to_string(), true), (3, 1, "Nil".to_string(), true)]);
}

#[test]
fn pipeline_hints_can_be_switched_off() {
    let lines = LineNumbers::new(SRC);
    let p = pipeline(vec![var_expr("c", 33, prelude("Bool"))], var_expr("d", 35, prelude("Nil")));
    let f = function(params(true), vec![TypedStatement::Expression(p)], Some(TypeAst { location: span(17, 20) }));
    let config = InlayHintsConfig { parameter_types: true, return_types: true, pipelines: false };
    assert!(get_inlay_hints(config, module_with(f), &lines).is_empty());
}

#[test]
fn each_function_names_its_variables_afresh() {
    let lines = LineNumbers::new(SRC);
    let var = |id: u64| Type::Var { type_: Box::new(TypeVar::Unbound { id }) };
    let f1 = TypedFunction {
        location: span(0, 15),
        arguments: vec![
            TypedArg { type_: var(5), annotation: None, location: span(5, 6) },
            TypedArg { type_: var(3), annotation: None, location: span(8, 9) },
        ],
        body: vec![],
        return_annotation: None,
        return_type: var(5),
    };
    let f2 = TypedFunction {
        location: span(18, 26),
        arguments: vec![TypedArg { type_: var(3), annotation: None, location: span(20, 21) }],
        body: vec![],
        return_annotation: Some(TypeAst { location: span(22, 25) }),
        return_type: var(3),
    };
    let module = TypedModule {
        name: "my_module".to_string(),
        definitions: vec![TypedDefinition::Function(f1), TypedDefinition::Function(f2)],
    };
    let hints = get_inlay_hints(all_on(), module, &lines);
    assert_eq!(
        summary(&hints),
        vec![
            (0, 6, ": a".to_string(), false),
            (0, 9, ": b".to_string(), false),
            (0, 15, "-> a".to_string(), true),
            (1, 3, ": a".to_string(), false),
        ]
    );
}

#[test]
fn anonymous_function_hints() {
    let lines = LineNumbers::new(SRC);
    let fn_type = Type::Fn { args: vec![prelude("Int")], retrn: Box::new(prelude("Bool")) };
    let anon = TypedExpr::Fn {
        location: span(18, 33),
        type_: fn_type,
        kind: FunctionLiteralKind::Anonymous { head: span(20, 26) },
        args: vec![TypedArg { type_: prelude("Int"), annotation: None, location: span(23, 24) }],
        body: vec![],
        return_annotation: None,
    };
    let f = function(params(true), vec![TypedStatement::Expression(anon)], Some(TypeAst { location: span(17, 20) }));
    let hints = get_inlay_hints(all_on(), module_with(f), &lines);
    assert_eq!(
        summary(&hints),
        vec![(1, 6, ": Int".to_string(), false), (1, 8, "-> Bool".to_string(), true)]
    );
}

#[test]
fn imported_types_are_qualified_in_hints() {
    let lines = LineNumbers::new(SRC);
    let dict = Type::Named {
        name: "Dict".to_string(),
        module: "gleam/dict".to_string(),
        package: "gleam_stdlib".to_string(),
        publicity: Publicity::Public,
        args: vec![prelude("Int"), prelude("String")],
    };
    let f = TypedFunction {
        location: span(0, 15),
        arguments: vec![TypedArg { type_: dict, annotation: None, location: span(5, 6) }],
        body: vec![],
        return_annotation: Some(TypeAst { location: span(17, 20) }),
        return_type: prelude("Int"),
    };
    let import = type_pretty::ImportDefinition {
        module: "gleam/dict".to_string(),
        as_name: Some(type_pretty::AssignName::Variable("d".to_string())),
        unqualified_types: vec![],
    };
    let module = TypedModule {
        name: "my_module".to_string(),
        definitions: vec![TypedDefinition::Import(import), TypedDefinition::Function(f)],
    };
    let hints = get_inlay_hints(all_on(), module, &lines);
    assert_eq!(summary(&hints), vec![(0, 6, ": d.Dict(Int, String)".to_string(), false)]);
}

#[test]
fn enclosing_function_keeps_its_own_names_after_anonymous_function() {
    let lines = LineNumbers::new(SRC);
    let var = |id: u64| Type::Var { type_: Box::new(TypeVar::Unbound { id }) };
    let anon = TypedExpr::Fn {
        location: span(18, 33),
        type_: Type::Fn { args: vec![var(9)], retrn: Box::new(prelude("Nil")) },
        kind: FunctionLiteralKind::Anonymous { head: span(20, 26) },
        args: vec![TypedArg { type_: var(9), annotation: None, location: span(23, 24) }],
        body: vec![],
        return_annotation: Some(TypeAst { location: span(25, 26) }),
    };
    let f = TypedFunction {
        location: span(0, 15),
        arguments: vec![TypedArg { type_: var(5), annotation: None, location: span(5, 6) }],
        body: vec![TypedStatement::Expression(anon)],
        return_annotation: Some(TypeAst { location: span(17, 20) }),
        return_type: prelude("Nil"),
    };
    let hints = get_inlay_hints(all_on(), module_with(f), &lines);
    assert_eq!(summary(&hints), vec![(1, 6, ": a".to_string(), false), (0, 6, ": a".to_string(), false)]);
}

#[test]
fn pipelines_inside_case_tuple_and_list_are_visited() {
    let lines = LineNumbers::new(SRC);
    let p = pipeline(vec![var_expr("c", 33, prelude("Bool"))], var_expr("d", 35, prelude("Nil")));
    let case = TypedExpr::Case {
        location: span(18, 35),
        type_: prelude("Nil"),
        subjects: vec![TypedExpr::Tuple {
            location: span(18, 20),
            type_: Type::Tuple { elems: vec![] },
            elems: vec![],
        }],
        clauses: vec![TypedExpr::List {
            location: span(20, 35),
            type_: prelude("List"),
            elements: vec![p],
        }],
    };
    let f = function(params(true), vec![TypedStatement::Expression(case)], Some(TypeAst { location: span(17, 20) }));
    let hints = get_inlay_hints(all_on(), module_with(f), &lines);
    assert_eq!(summary(&hints), vec![(2, 6, "Bool".to_string(), true), (3, 1, "Nil".to_string(), true)]);
}
