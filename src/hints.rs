use vstd::prelude::*;
use vstd::string::StringExecFns;

use crate::ast::{
    line_index, position_of, FunctionLiteralKind, LineNumbers, Position, SrcSpan, TypeAst, TypedArg,
    TypedDefinition, TypedExpr, TypedFunction, TypedModule, TypedPipelineAssignment, TypedStatement,
};
use crate::doc::flat;
use crate::printer::{imports_of, imports_view, module_imports, print_type, ContextView, Printer, Session};
use crate::types::{Type, TypeVar};

verus! {

/// Which kinds of type hints to produce.
#[derive(Clone, Copy, Debug, PartialEq, Eq)]
pub struct InlayHintsConfig {
    pub parameter_types: bool,
    pub return_types: bool,
    pub pipelines: bool,
}

/// A type hint: a label shown at a position of the source.
#[derive(Debug)]
pub struct InlayHint {
    pub position: Position,
    pub label: String,
    /// Whether the editor puts a space before the label.
    pub padding_left: bool,
}

pub struct HintView {
    pub position: Position,
    pub label: Seq<char>,
    pub padding_left: bool,
}

impl InlayHint {
    pub open spec fn view(&self) -> HintView {
        HintView { position: self.position, label: self.label@, padding_left: self.padding_left }
    }
}

pub open spec fn hints_view(hs: Seq<InlayHint>) -> Seq<HintView> {
    hs.map_values(|h: InlayHint| h.view())
}

/// What stays fixed during a walk: the settings, where lines start, and the
/// module that types are printed as seen from.
pub struct Env {
    pub config: InlayHintsConfig,
    pub starts: Seq<u32>,
    pub context: ContextView,
}

/// The state of a walk: the printing session and the hints so far.
pub struct Walk {
    pub session: Session,
    pub hints: Seq<HintView>,
}

/// A printing session with nothing named or printed yet.
pub open spec fn fresh(ctx: ContextView) -> Session {
    Session { names: Map::empty(), uid: 0, printed: Map::empty(), context: Some(ctx) }
}

pub open spec fn fresh_walk(env: Env, w: Walk) -> Walk {
    Walk { session: fresh(env.context), hints: w.hints }
}

/// A type printed on one line, and the session after.
pub open spec fn type_label(s: Session, t: Type) -> (Session, Seq<char>) {
    (print_type(s, t).0, flat(print_type(s, t).1))
}

pub open spec fn default_hint(env: Env, offset: u32, label: Seq<char>) -> HintView {
    HintView { position: position_of(env.starts, offset), label, padding_left: true }
}

/// The hint for a parameter: none where its type is written out.
pub open spec fn binding_hint(env: Env, w: Walk, t: Type, annotated: bool, span: SrcSpan) -> Walk {
    if annotated {
        w
    } else {
        let (s1, l) = type_label(w.session, t);
        Walk {
            session: s1,
            hints: w.hints.push(
                HintView { position: position_of(env.starts, span.end), label: seq![':', ' '] + l, padding_left: false },
            ),
        }
    }
}

/// The hint for a return type: none where it is written out.
pub open spec fn return_hint(env: Env, w: Walk, t: Type, annotated: bool, span: SrcSpan) -> Walk {
    if annotated {
        w
    } else {
        let (s1, l) = type_label(w.session, t);
        Walk { session: s1, hints: w.hints.push(default_hint(env, span.end, seq!['-', '>', ' '] + l)) }
    }
}

pub open spec fn param_hints(env: Env, w: Walk, args: Seq<TypedArg>) -> Walk
    decreases args.len(),
{
    if args.len() == 0 {
        w
    } else {
        let a = args[args.len() - 1];
        binding_hint(env, param_hints(env, w, args.subrange(0, args.len() - 1)), a.type_, a.annotation is Some, a.location)
    }
}

/// The return type of a function type, following links.
pub open spec fn fn_return(t: Type) -> Option<Type>
    decreases t,
{
    match t {
        Type::Fn { retrn, .. } => Some(*retrn),
        Type::Var { type_ } => match *type_ {
            TypeVar::Link { type_ } => fn_return(*type_),
            _ => None,
        },
        _ => None,
    }
}

/// A step still waiting to be shown: its line, and its hint unless the
/// step is a literal.
pub type Pending = Option<(nat, Option<HintView>)>;

/// One pipeline step: the waiting step is shown if this one ends on
/// another line, and this one waits in its place.
pub open spec fn fold_step(env: Env, acc: (Session, Seq<HintView>, Pending), step: TypedPipelineAssignment) -> (
    Session,
    Seq<HintView>,
    Pending,
) {
    let (s1, h1, prev) = acc;
    let line = line_index(env.starts, step.location.end);
    let h2 = match prev {
        Some((pl, Some(ph))) => if pl != line { h1.push(ph) } else { h1 },
        _ => h1,
    };
    let (s2, label) = type_label(s1, step.value.spec_type());
    let hint = default_hint(env, step.location.end, label);
    (s2, h2, Some((line, if step.value.spec_is_simple_lit() { None } else { Some(hint) })))
}

/// The pipeline steps seen so far: the session, the hints shown, and the
/// step waiting. A step's hint is shown only once a later step ends on
/// another line.
pub open spec fn step_fold(env: Env, s: Session, hints: Seq<HintView>, steps: Seq<TypedPipelineAssignment>) -> (
    Session,
    Seq<HintView>,
    Pending,
)
    decreases steps.len(),
{
    if steps.len() == 0 {
        (s, hints, None)
    } else {
        fold_step(env, step_fold(env, s, hints, steps.subrange(0, steps.len() - 1)), steps[steps.len() - 1])
    }
}

/// The hints of a pipeline's steps and of its final value.
pub open spec fn pipeline_hints(env: Env, w: Walk, steps: Seq<TypedPipelineAssignment>, finally: TypedExpr) -> Walk {
    let (s1, h1, prev) = step_fold(env, w.session, w.hints, steps);
    match prev {
        None => Walk { session: s1, hints: h1 },
        Some((pl, ph)) => {
            let fl = line_index(env.starts, finally.spec_location().end);
            if fl != pl {
                let h2 = match ph {
                    Some(x) => h1.push(x),
                    None => h1,
                };
                let (s2, label) = type_label(s1, finally.spec_type());
                Walk { session: s2, hints: h2.push(default_hint(env, finally.spec_location().end, label)) }
            } else {
                Walk { session: s1, hints: h1 }
            }
        },
    }
}

pub open spec fn walk_expr(env: Env, w: Walk, e: TypedExpr) -> Walk
    decreases e,
{
    match e {
        TypedExpr::Call { fun, args, .. } => walk_exprs(env, walk_expr(env, w, *fun), args@),
        TypedExpr::Tuple { elems, .. } => walk_exprs(env, w, elems@),
        TypedExpr::List { elements, .. } => walk_exprs(env, w, elements@),
        TypedExpr::Case { subjects, clauses, .. } => walk_exprs(env, walk_exprs(env, w, subjects@), clauses@),
        TypedExpr::Block { statements, .. } => walk_stmts(env, w, statements@),
        TypedExpr::Fn { type_, kind, args, body, return_annotation, .. } => match kind {
            FunctionLiteralKind::Anonymous { head } => {
                let w1 = walk_stmts(env, fresh_walk(env, w), body@);
                let w2 = if env.config.parameter_types { param_hints(env, w1, args@) } else { w1 };
                let w3 = if env.config.return_types {
                    match fn_return(type_) {
                        Some(r) => return_hint(env, w2, r, return_annotation is Some, head),
                        None => w2,
                    }
                } else {
                    w2
                };
                // The enclosing declaration goes on with its own session.
                Walk { session: w.session, hints: w3.hints }
            },
            _ => walk_stmts(env, w, body@),
        },
        TypedExpr::Pipeline { first_value, assignments, finally, .. } => {
            let w1 = walk_expr(env, w, *first_value.value);
            let w2 = walk_steps(env, w1, assignments@);
            let w3 = walk_expr(env, w2, *finally);
            if env.config.pipelines {
                pipeline_hints(env, w3, seq![first_value] + assignments@, *finally)
            } else {
                w3
            }
        },
        _ => w,
    }
}

pub open spec fn walk_exprs(env: Env, w: Walk, es: Seq<TypedExpr>) -> Walk
    decreases es,
{
    if es.len() == 0 {
        w
    } else {
        walk_expr(env, walk_exprs(env, w, es.subrange(0, es.len() - 1)), es[es.len() - 1])
    }
}

pub open spec fn walk_steps(env: Env, w: Walk, steps: Seq<TypedPipelineAssignment>) -> Walk
    decreases steps,
{
    if steps.len() == 0 {
        w
    } else {
        walk_expr(env, walk_steps(env, w, steps.subrange(0, steps.len() - 1)), *steps[steps.len() - 1].value)
    }
}

pub open spec fn walk_stmts(env: Env, w: Walk, ss: Seq<TypedStatement>) -> Walk
    decreases ss,
{
    if ss.len() == 0 {
        w
    } else {
        let w1 = walk_stmts(env, w, ss.subrange(0, ss.len() - 1));
        match ss[ss.len() - 1] {
            TypedStatement::Expression(e) => walk_expr(env, w1, e),
            TypedStatement::Assignment { value, .. } => walk_expr(env, w1, value),
        }
    }
}

/// A module function: its body, then its parameters, then its return type,
/// in a fresh printing session.
pub open spec fn walk_function(env: Env, w: Walk, f: TypedFunction) -> Walk {
    let w1 = walk_stmts(env, fresh_walk(env, w), f.body@);
    let w2 = if env.config.parameter_types { param_hints(env, w1, f.arguments@) } else { w1 };
    if env.config.return_types {
        return_hint(env, w2, f.return_type, f.return_annotation is Some, f.location)
    } else {
        w2
    }
}

pub open spec fn walk_definitions(env: Env, w: Walk, defs: Seq<TypedDefinition>) -> Walk
    decreases defs.len(),
{
    if defs.len() == 0 {
        w
    } else {
        let w1 = walk_definitions(env, w, defs.subrange(0, defs.len() - 1));
        match defs[defs.len() - 1] {
            TypedDefinition::Function(f) => walk_function(env, w1, f),
            _ => w1,
        }
    }
}

pub open spec fn module_env(config: InlayHintsConfig, module: TypedModule, starts: Seq<u32>) -> Env {
    Env { config, starts, context: ContextView { module: module.name@, imports: module_imports(module.definitions@) } }
}

/// The type hints of a module, in the order they are found.
pub open spec fn module_hints(config: InlayHintsConfig, module: TypedModule, starts: Seq<u32>) -> Seq<HintView> {
    let env = module_env(config, module, starts);
    walk_definitions(env, Walk { session: fresh(env.context), hints: Seq::empty() }, module.definitions@).hints
}


/// A parameter or return type written out in the source gets no hint,
/// whatever the settings.
pub proof fn lemma_annotated_gets_no_hint(env: Env, w: Walk, t: Type, span: SrcSpan, args: Seq<TypedArg>)
    ensures
        binding_hint(env, w, t, true, span) == w,
        return_hint(env, w, t, true, span) == w,
        (forall|i: int| 0 <= i < args.len() ==> (#[trigger] args[i]).annotation is Some) ==> param_hints(env, w, args)
            == w,
    decreases args.len(),
{
    if args.len() > 0 && (forall|i: int| 0 <= i < args.len() ==> (#[trigger] args[i]).annotation is Some) {
        let init = args.subrange(0, args.len() - 1);
        assert forall|i: int| 0 <= i < init.len() implies (#[trigger] init[i]).annotation is Some by {
            assert(init[i] == args[i]);
        }
        lemma_annotated_gets_no_hint(env, w, t, span, init);
        assert(args[args.len() - 1].annotation is Some);
    }
}

/// Where the hint of a pipeline step stands: at the end of the step.
pub open spec fn step_position(env: Env, step: TypedPipelineAssignment) -> Position {
    position_of(env.starts, step.location.end)
}

pub open spec fn step_line(env: Env, step: TypedPipelineAssignment) -> nat {
    line_index(env.starts, step.location.end)
}

/// Whether a hint stands at the end of a step that is not a literal.
pub open spec fn at_non_literal_step(env: Env, h: HintView, steps: Seq<TypedPipelineAssignment>) -> bool {
    exists|i: int|
        0 <= i < steps.len() && !steps[i].value.spec_is_simple_lit() && h.position == #[trigger] step_position(
            env,
            steps[i],
        )
}

proof fn lemma_step_fold_sources(env: Env, s: Session, hints: Seq<HintView>, steps: Seq<TypedPipelineAssignment>)
    ensures
        ({
            let (s1, h1, p) = step_fold(env, s, hints, steps);
            &&& h1.len() >= hints.len()
            &&& h1.subrange(0, hints.len() as int) == hints
            &&& forall|j: int| hints.len() <= j < h1.len() ==> at_non_literal_step(env, #[trigger] h1[j], steps)
            &&& (match p {
                Some((_, Some(x))) => at_non_literal_step(env, x, steps),
                _ => true,
            })
        }),
    decreases steps.len(),
{
    if steps.len() > 0 {
        let init = steps.subrange(0, steps.len() - 1);
        lemma_step_fold_sources(env, s, hints, init);
        let (s1, h1, prev) = step_fold(env, s, hints, init);
        let last = steps[steps.len() - 1];
        let (s2, h2, p2) = fold_step(env, (s1, h1, prev), last);
        assert forall|h: HintView| at_non_literal_step(env, h, init) implies at_non_literal_step(env, h, steps) by {
            let i = choose|i: int|
                0 <= i < init.len() && !init[i].value.spec_is_simple_lit() && h.position == #[trigger] step_position(
                    env,
                    init[i],
                );
            assert(init[i] == steps[i]);
        }
        assert(h2.subrange(0, hints.len() as int) =~= hints) by {
            assert(h1.subrange(0, hints.len() as int) == hints);
        }
        assert forall|j: int| hints.len() <= j < h2.len() implies at_non_literal_step(env, #[trigger] h2[j], steps) by {
            if j < h1.len() {
                assert(h2[j] == h1[j]);
            }
        }
        match p2 {
            Some((_, Some(x))) => {
                assert(!last.value.spec_is_simple_lit());
                assert(x.position == step_position(env, steps[steps.len() - 1]));
            },
            _ => {},
        }
    }
}

/// A pipeline adds hints only at the ends of steps that are not literals,
/// and at the end of its final value: a literal step never gets one.
pub proof fn lemma_literal_steps_get_no_hint(env: Env, w: Walk, steps: Seq<TypedPipelineAssignment>, finally: TypedExpr)
    ensures
        ({
            let r = pipeline_hints(env, w, steps, finally).hints;
            &&& r.len() >= w.hints.len()
            &&& r.subrange(0, w.hints.len() as int) == w.hints
            &&& forall|j: int|
                w.hints.len() <= j < r.len() ==> at_non_literal_step(env, #[trigger] r[j], steps) || r[j].position
                    == position_of(env.starts, finally.spec_location().end)
        }),
{
    lemma_step_fold_sources(env, w.session, w.hints, steps);
    let (s1, h1, prev) = step_fold(env, w.session, w.hints, steps);
    let r = pipeline_hints(env, w, steps, finally).hints;
    assert(r.subrange(0, w.hints.len() as int) =~= w.hints) by {
        assert(h1.subrange(0, w.hints.len() as int) == w.hints);
    }
    assert forall|j: int| w.hints.len() <= j < r.len() implies at_non_literal_step(env, #[trigger] r[j], steps)
        || r[j].position == position_of(env.starts, finally.spec_location().end) by {
        if j < h1.len() {
            assert(r[j] == h1[j]);
        }
    }
}

/// Three steps where the first two end on one line and the third on
/// another: the first step gets no hint, the second gets one unless it is a
/// literal, and the third and the final value get theirs only when the
/// final value ends on another line than the third step.
pub proof fn lemma_pipeline_collapsing(env: Env, w: Walk, steps: Seq<TypedPipelineAssignment>, finally: TypedExpr)
    requires
        steps.len() == 3,
        step_line(env, steps[0]) == step_line(env, steps[1]),
        step_line(env, steps[1]) != step_line(env, steps[2]),
    ensures
        pipeline_hints(env, w, steps, finally).hints.subrange(
            w.hints.len() as int,
            pipeline_hints(env, w, steps, finally).hints.len() as int,
        ).map_values(|h: HintView| h.position) == (if steps[1].value.spec_is_simple_lit() {
            Seq::<Position>::empty()
        } else {
            seq![step_position(env, steps[1])]
        }) + (if line_index(env.starts, finally.spec_location().end) != step_line(env, steps[2]) {
            (if steps[2].value.spec_is_simple_lit() {
                Seq::<Position>::empty()
            } else {
                seq![step_position(env, steps[2])]
            }) + seq![position_of(env.starts, finally.spec_location().end)]
        } else {
            Seq::<Position>::empty()
        }),
{
    let s0 = steps.subrange(0, 0);
    let s1 = steps.subrange(0, 1);
    let s2 = steps.subrange(0, 2);
    assert(s1.subrange(0, 0) =~= s0);
    assert(s2.subrange(0, 1) =~= s1);
    assert(steps.subrange(0, 2) =~= s2);
    let a0 = step_fold(env, w.session, w.hints, s0);
    let a1 = step_fold(env, w.session, w.hints, s1);
    let a2 = step_fold(env, w.session, w.hints, s2);
    let a3 = step_fold(env, w.session, w.hints, steps);
    assert(a0 == (w.session, w.hints, None::<(nat, Option<HintView>)>));
    assert(a1 == fold_step(env, a0, steps[0]));
    assert(a1.1 == w.hints);
    assert(a2 == fold_step(env, a1, steps[1]));
    assert(a2.1 == w.hints);
    assert(a3 == fold_step(env, a2, steps[2]));
    let r = pipeline_hints(env, w, steps, finally).hints;
    let added = r.subrange(w.hints.len() as int, r.len() as int).map_values(|h: HintView| h.position);
    let expect = (if steps[1].value.spec_is_simple_lit() {
        Seq::<Position>::empty()
    } else {
        seq![step_position(env, steps[1])]
    }) + (if line_index(env.starts, finally.spec_location().end) != step_line(env, steps[2]) {
        (if steps[2].value.spec_is_simple_lit() {
            Seq::<Position>::empty()
        } else {
            seq![step_position(env, steps[2])]
        }) + seq![position_of(env.starts, finally.spec_location().end)]
    } else {
        Seq::<Position>::empty()
    });
    assert(added =~= expect);
}

pub open spec fn pending_view(p: Option<(usize, Option<InlayHint>)>) -> Pending {
    match p {
        None => None,
        Some((l, h)) => Some((
            l as nat,
            match h {
                Some(x) => Some(x.view()),
                None => None,
            },
        )),
    }
}

/// A hint of a type at a byte offset.
fn default_inlay_hint(line_numbers: &LineNumbers, offset: u32, label: String) -> (r: InlayHint)
    ensures
        r.view() == (HintView {
            position: position_of(line_numbers.line_starts@, offset),
            label: label@,
            padding_left: true,
        }),
{
    let position = line_numbers.position(offset);
    InlayHint { position, label, padding_left: true }
}

/// The return type of a function type, following links.
fn fn_return_type(t: &Type) -> (r: Option<&Type>)
    ensures
        r is None <==> fn_return(*t) is None,
        r matches Some(x) ==> fn_return(*t) == Some(*x),
    decreases t,
{
    match t {
        Type::Fn { retrn, .. } => Some(retrn),
        Type::Var { type_ } => match &**type_ {
            TypeVar::Link { type_ } => fn_return_type(type_),
            _ => None,
        },
        _ => None,
    }
}

struct InlayHintsVisitor<'a> {
    config: InlayHintsConfig,
    module: &'a TypedModule,
    current_declaration_printer: Printer,
    hints: Vec<InlayHint>,
    line_numbers: &'a LineNumbers,
}

impl<'a> InlayHintsVisitor<'a> {
    pub closed spec fn env(&self) -> Env {
        module_env(self.config, *self.module, self.line_numbers.line_starts@)
    }

    pub closed spec fn walk(&self) -> Walk {
        Walk { session: self.current_declaration_printer.session(), hints: hints_view(self.hints@) }
    }

    fn fresh_printer(&self) -> (r: Printer)
        ensures
            r.session() == fresh(self.env().context),
    {
        let mut printer = Printer::new();
        printer.with_imports_context(self.module.name.clone(), imports_of(self.module));
        assert(printer.session().names =~= Map::empty());
        assert(printer.session().printed =~= Map::empty());
        printer
    }

    fn push(&mut self, hint: InlayHint)
        ensures
            final(self).env() == old(self).env(),
            final(self).walk() == (Walk { hints: old(self).walk().hints.push(hint.view()), ..old(self).walk() }),
    {
        self.hints.push(hint);
        assert(hints_view(self.hints@) =~= hints_view(old(self).hints@).push(hint.view()));
    }

    fn label(&mut self, t: &Type) -> (r: String)
        ensures
            final(self).env() == old(self).env(),
            final(self).walk() == (Walk { session: type_label(old(self).walk().session, *t).0, ..old(self).walk() }),
            r@ == type_label(old(self).walk().session, *t).1,
    {
        self.current_declaration_printer.print_flat(t)
    }

    /// A hint of the type of a parameter, unless it is written out.
    pub fn push_binding_annotation(&mut self, type_: &Type, type_annotation_ast: Option<&TypeAst>, span: &SrcSpan)
        ensures
            final(self).env() == old(self).env(),
            final(self).walk() == binding_hint(
                old(self).env(),
                old(self).walk(),
                *type_,
                type_annotation_ast is Some,
                *span,
            ),
    {
        if type_annotation_ast.is_some() {
            return;
        }
        let printed = self.label(type_);
        let mut label = String::from_str(": ");
        label.append(printed.as_str());
        proof {
            reveal_strlit(": ");
            assert(label@ =~= seq![':', ' '] + printed@);
        }
        let mut hint = default_inlay_hint(self.line_numbers, span.end, label);
        hint.padding_left = false;
        self.push(hint);
    }

    /// A hint of a return type, unless it is written out.
    pub fn push_return_annotation(&mut self, type_: &Type, type_annotation_ast: Option<&TypeAst>, span: &SrcSpan)
        ensures
            final(self).env() == old(self).env(),
            final(self).walk() == return_hint(
                old(self).env(),
                old(self).walk(),
                *type_,
                type_annotation_ast is Some,
                *span,
            ),
    {
        if type_annotation_ast.is_some() {
            return;
        }
        let printed = self.label(type_);
        let mut label = String::from_str("-> ");
        label.append(printed.as_str());
        proof {
            reveal_strlit("-> ");
            assert(label@ =~= seq!['-', '>', ' '] + printed@);
        }
        let hint = default_inlay_hint(self.line_numbers, span.end, label);
        self.push(hint);
    }

    fn push_parameter_hints(&mut self, args: &Vec<TypedArg>)
        ensures
            final(self).env() == old(self).env(),
            final(self).walk() == param_hints(old(self).env(), old(self).walk(), args@),
    {
        let mut k: usize = 0;
        assert(args@.subrange(0, 0) =~= Seq::<TypedArg>::empty());
        while k < args.len()
            invariant
                k <= args@.len(),
                self.env() == old(self).env(),
                self.walk() == param_hints(old(self).env(), old(self).walk(), args@.subrange(0, k as int)),
            decreases args.len() - k,
        {
            let ghost sub = args@.subrange(0, k + 1);
            assert(sub.subrange(0, k as int) =~= args@.subrange(0, k as int));
            let arg = &args[k];
            self.push_binding_annotation(&arg.type_, arg.annotation.as_ref(), &arg.location);
            k = k + 1;
        }
        assert(args@.subrange(0, args@.len() as int) =~= args@);
    }

    fn visit_typed_function(&mut self, fun: &TypedFunction)
        ensures
            final(self).env() == old(self).env(),
            final(self).walk() == walk_function(old(self).env(), old(self).walk(), *fun),
    {
        // Each declaration gets its own names for type variables.
        self.current_declaration_printer = self.fresh_printer();
        self.visit_statements(&fun.body);
        if self.config.parameter_types {
            self.push_parameter_hints(&fun.arguments);
        }
        if self.config.return_types {
            self.push_return_annotation(&fun.return_type, fun.return_annotation.as_ref(), &fun.location);
        }
    }

    fn visit_typed_expr(&mut self, e: &TypedExpr)
        ensures
            final(self).env() == old(self).env(),
            final(self).walk() == walk_expr(old(self).env(), old(self).walk(), *e),
        decreases e, 1int,
    {
        match e {
            TypedExpr::Call { fun, args, .. } => {
                self.visit_typed_expr(fun);
                self.visit_exprs(args);
            },
            TypedExpr::Block { statements, .. } => self.visit_statements(statements),
            TypedExpr::Tuple { elems, .. } => self.visit_exprs(elems),
            TypedExpr::List { elements, .. } => self.visit_exprs(elements),
            TypedExpr::Case { subjects, clauses, .. } => {
                self.visit_exprs(subjects);
                self.visit_exprs(clauses);
            },
            TypedExpr::Fn { .. } => self.visit_typed_expr_fn(e),
            TypedExpr::Pipeline { .. } => self.visit_typed_expr_pipeline(e),
            _ => {},
        }
    }

    fn visit_exprs(&mut self, es: &Vec<TypedExpr>)
        ensures
            final(self).env() == old(self).env(),
            final(self).walk() == walk_exprs(old(self).env(), old(self).walk(), es@),
        decreases es, 1int,
    {
        let mut k: usize = 0;
        assert(es@.subrange(0, 0) =~= Seq::<TypedExpr>::empty());
        while k < es.len()
            invariant
                k <= es@.len(),
                self.env() == old(self).env(),
                self.walk() == walk_exprs(old(self).env(), old(self).walk(), es@.subrange(0, k as int)),
            decreases es.len() - k,
        {
            let ghost sub = es@.subrange(0, k + 1);
            assert(sub.subrange(0, k as int) =~= es@.subrange(0, k as int));
            self.visit_typed_expr(&es[k]);
            k = k + 1;
        }
        assert(es@.subrange(0, es@.len() as int) =~= es@);
    }

    fn visit_steps(&mut self, steps: &Vec<TypedPipelineAssignment>)
        ensures
            final(self).env() == old(self).env(),
            final(self).walk() == walk_steps(old(self).env(), old(self).walk(), steps@),
        decreases steps, 1int,
    {
        let mut k: usize = 0;
        assert(steps@.subrange(0, 0) =~= Seq::<TypedPipelineAssignment>::empty());
        while k < steps.len()
            invariant
                k <= steps@.len(),
                self.env() == old(self).env(),
                self.walk() == walk_steps(old(self).env(), old(self).walk(), steps@.subrange(0, k as int)),
            decreases steps.len() - k,
        {
            let ghost sub = steps@.subrange(0, k + 1);
            assert(sub.subrange(0, k as int) =~= steps@.subrange(0, k as int));
            self.visit_typed_expr(&steps[k].value);
            k = k + 1;
        }
        assert(steps@.subrange(0, steps@.len() as int) =~= steps@);
    }

    fn visit_statements(&mut self, ss: &Vec<TypedStatement>)
        ensures
            final(self).env() == old(self).env(),
            final(self).walk() == walk_stmts(old(self).env(), old(self).walk(), ss@),
        decreases ss, 1int,
    {
        let mut k: usize = 0;
        assert(ss@.subrange(0, 0) =~= Seq::<TypedStatement>::empty());
        while k < ss.len()
            invariant
                k <= ss@.len(),
                self.env() == old(self).env(),
                self.walk() == walk_stmts(old(self).env(), old(self).walk(), ss@.subrange(0, k as int)),
            decreases ss.len() - k,
        {
            let ghost sub = ss@.subrange(0, k + 1);
            assert(sub.subrange(0, k as int) =~= ss@.subrange(0, k as int));
            match &ss[k] {
                TypedStatement::Expression(e) => self.visit_typed_expr(e),
                TypedStatement::Assignment { value, .. } => self.visit_typed_expr(value),
            }
            k = k + 1;
        }
        assert(ss@.subrange(0, ss@.len() as int) =~= ss@);
    }

    fn visit_typed_expr_fn(&mut self, e: &TypedExpr)
        requires
            e is Fn,
        ensures
            final(self).env() == old(self).env(),
            final(self).walk() == walk_expr(old(self).env(), old(self).walk(), *e),
        decreases e, 0int,
    {
        if let TypedExpr::Fn { type_, kind, args, body, return_annotation, .. } = e {
            let FunctionLiteralKind::Anonymous { head } = kind else {
                self.visit_statements(body);
                return;
            };
            // An anonymous function names its type variables afresh, and the
            // enclosing declaration then goes on with its own names.
            let mut enclosing = self.fresh_printer();
            std::mem::swap(&mut self.current_declaration_printer, &mut enclosing);
            self.visit_statements(body);
            if self.config.parameter_types {
                self.push_parameter_hints(args);
            }
            if self.config.return_types {
                if let Some(ret_type) = fn_return_type(type_) {
                    self.push_return_annotation(ret_type, return_annotation.as_ref(), head);
                }
            }
            self.current_declaration_printer = enclosing;
        }
    }

    fn visit_typed_expr_pipeline(&mut self, e: &TypedExpr)
        requires
            e is Pipeline,
        ensures
            final(self).env() == old(self).env(),
            final(self).walk() == walk_expr(old(self).env(), old(self).walk(), *e),
        decreases e, 0int,
    {
        if let TypedExpr::Pipeline { first_value, assignments, finally, .. } = e {
            self.visit_typed_expr(&first_value.value);
            self.visit_steps(assignments);
            self.visit_typed_expr(finally);
            if !self.config.pipelines {
                return;
            }
            self.push_pipeline_hints(first_value, assignments, finally);
        }
    }

    fn pipeline_step(
        &mut self,
        prev_hint: Option<(usize, Option<InlayHint>)>,
        assign: &TypedPipelineAssignment,
    ) -> (r: Option<(usize, Option<InlayHint>)>)
        ensures
            final(self).env() == old(self).env(),
            ({
                let (s, h, p) = fold_step(
                    old(self).env(),
                    (old(self).walk().session, old(self).walk().hints, pending_view(prev_hint)),
                    *assign,
                );
                &&& final(self).walk().session == s
                &&& final(self).walk().hints == h
                &&& pending_view(r) == p
            }),
    {
        let this_line = self.line_numbers.line_number(assign.location.end);
        match prev_hint {
            Some((prev_line, prev)) => {
                if prev_line != this_line {
                    if let Some(h) = prev {
                        self.push(h);
                    }
                }
            },
            None => {},
        }
        let label = self.label(assign.value.type_());
        let this_hint = default_inlay_hint(self.line_numbers, assign.location.end, label);
        Some((this_line, if assign.value.is_simple_lit() {
            None
        } else {
            Some(this_hint)
        }))
    }

    /// The hints of a pipeline: of each step that a later step does not
    /// share a line with, unless it is a literal, and of the final value
    /// when it is on another line than the last step.
    fn push_pipeline_hints(
        &mut self,
        first_value: &TypedPipelineAssignment,
        assignments: &Vec<TypedPipelineAssignment>,
        finally: &TypedExpr,
    )
        ensures
            final(self).env() == old(self).env(),
            final(self).walk() == pipeline_hints(
                old(self).env(),
                old(self).walk(),
                seq![*first_value] + assignments@,
                *finally,
            ),
    {
        let ghost env = old(self).env();
        let ghost w0 = old(self).walk();
        let ghost steps = seq![*first_value] + assignments@;
        assert(steps.subrange(0, 0) =~= Seq::<TypedPipelineAssignment>::empty());
        assert(steps.subrange(0, 1).subrange(0, 0) =~= Seq::<TypedPipelineAssignment>::empty());
        let mut prev_hint = self.pipeline_step(None, first_value);
        assert(steps.subrange(0, 1)[0] == *first_value);
        assert(steps.subrange(0, 1).subrange(0, 0).len() == 0);
        assert(step_fold(env, w0.session, w0.hints, steps.subrange(0, 1).subrange(0, 0)) == (
            w0.session,
            w0.hints,
            None::<(nat, Option<HintView>)>,
        ));
        assert(pending_view(None) == None::<(nat, Option<HintView>)>);
        assert(step_fold(env, w0.session, w0.hints, steps.subrange(0, 1)) == fold_step(
            env,
            (w0.session, w0.hints, None),
            *first_value,
        ));
        let mut k: usize = 0;
        while k < assignments.len()
            invariant
                k <= assignments@.len(),
                steps == seq![*first_value] + assignments@,
                env == old(self).env(),
                self.env() == env,
                ({
                    let (s, h, p) = step_fold(env, w0.session, w0.hints, steps.subrange(0, k + 1));
                    &&& self.walk().session == s
                    &&& self.walk().hints == h
                    &&& pending_view(prev_hint) == p
                }),
            decreases assignments.len() - k,
        {
            let ghost sub = steps.subrange(0, k + 2);
            assert(sub.subrange(0, k + 1) =~= steps.subrange(0, k + 1));
            assert(sub[k + 1] == assignments@[k as int]);
            prev_hint = self.pipeline_step(prev_hint, &assignments[k]);
            k = k + 1;
        }
        assert(steps.subrange(0, steps.len() as int) =~= steps);
        if let Some((prev_line, prev)) = prev_hint {
            let this_line = self.line_numbers.line_number(finally.location().end);
            if this_line != prev_line {
                if let Some(h) = prev {
                    self.push(h);
                }
                let label = self.label(finally.type_());
                let hint = default_inlay_hint(self.line_numbers, finally.location().end, label);
                self.push(hint);
            }
        }
    }
}

/// The type hints of a module, in the order they are found: for each
/// function, those inside its body, then those of its parameters, then that
/// of its return type.
pub fn get_inlay_hints(config: InlayHintsConfig, typed_module: TypedModule, line_numbers: &LineNumbers) -> (r: Vec<
    InlayHint,
>)
    ensures
        hints_view(r@) == module_hints(config, typed_module, line_numbers.line_starts@),
{
    let mut visitor = InlayHintsVisitor {
        config,
        module: &typed_module,
        current_declaration_printer: Printer::new(),
        hints: Vec::new(),
        line_numbers,
    };
    visitor.current_declaration_printer = visitor.fresh_printer();
    let ghost env = visitor.env();
    let ghost w0 = visitor.walk();
    assert(w0.hints =~= Seq::<HintView>::empty());
    let defs = &typed_module.definitions;
    let mut k: usize = 0;
    assert(defs@.subrange(0, 0) =~= Seq::<TypedDefinition>::empty());
    while k < defs.len()
        invariant
            k <= defs@.len(),
            visitor.env() == env,
            env == module_env(config, typed_module, line_numbers.line_starts@),
            visitor.walk() == walk_definitions(env, w0, defs@.subrange(0, k as int)),
        decreases defs.len() - k,
    {
        let ghost sub = defs@.subrange(0, k + 1);
        assert(sub.subrange(0, k as int) =~= defs@.subrange(0, k as int));
        match &defs[k] {
            TypedDefinition::Function(f) => visitor.visit_typed_function(f),
            _ => {},
        }
        k = k + 1;
    }
    assert(defs@.subrange(0, defs@.len() as int) =~= defs@);
    visitor.hints
}

} // verus!
