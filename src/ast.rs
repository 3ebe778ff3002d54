use vstd::prelude::*;
use vstd::string::StringSliceAdditionalSpecFns;

use crate::printer::UnqualifiedImport;
use crate::types::Type;

verus! {

/// A range of byte offsets in a source file.
#[derive(Clone, Copy, Debug, PartialEq, Eq)]
pub struct SrcSpan {
    pub start: u32,
    pub end: u32,
}

/// A type written out in the source.
#[derive(Debug)]
pub struct TypeAst {
    pub location: SrcSpan,
}

/// A function parameter after type checking.
#[derive(Debug)]
pub struct TypedArg {
    pub type_: Type,
    pub annotation: Option<TypeAst>,
    pub location: SrcSpan,
}

/// How an anonymous function was written.
#[derive(Debug)]
pub enum FunctionLiteralKind {
    /// `fn(x) { ... }`, with the span of its head.
    Anonymous { head: SrcSpan },
    /// A function capture, `f(_, 1)`.
    Capture,
    /// The callback of a `use` expression.
    Use,
}

/// One step of a pipeline: the value handed on to the next step.
#[derive(Debug)]
pub struct TypedPipelineAssignment {
    pub location: SrcSpan,
    pub value: Box<TypedExpr>,
}

/// An expression after type checking.
#[derive(Debug)]
#[allow(inconsistent_fields)]
pub enum TypedExpr {
    Int { location: SrcSpan, type_: Type, value: String },
    Float { location: SrcSpan, type_: Type, value: String },
    String { location: SrcSpan, type_: Type, value: String },
    Var { location: SrcSpan, type_: Type, name: String },
    Call { location: SrcSpan, type_: Type, fun: Box<TypedExpr>, args: Vec<TypedExpr> },
    Block { location: SrcSpan, type_: Type, statements: Vec<TypedStatement> },
    Tuple { location: SrcSpan, type_: Type, elems: Vec<TypedExpr> },
    List { location: SrcSpan, type_: Type, elements: Vec<TypedExpr> },
    /// A case expression: its subjects, then the body of each clause.
    Case { location: SrcSpan, type_: Type, subjects: Vec<TypedExpr>, clauses: Vec<TypedExpr> },
    Fn {
        location: SrcSpan,
        type_: Type,
        kind: FunctionLiteralKind,
        args: Vec<TypedArg>,
        body: Vec<TypedStatement>,
        return_annotation: Option<TypeAst>,
    },
    Pipeline {
        location: SrcSpan,
        first_value: TypedPipelineAssignment,
        assignments: Vec<TypedPipelineAssignment>,
        finally: Box<TypedExpr>,
    },
}

/// A statement after type checking.
#[derive(Debug)]
pub enum TypedStatement {
    Expression(TypedExpr),
    Assignment { location: SrcSpan, value: TypedExpr },
}

/// A module function after type checking.
#[derive(Debug)]
pub struct TypedFunction {
    /// The span of the function's head.
    pub location: SrcSpan,
    pub arguments: Vec<TypedArg>,
    pub body: Vec<TypedStatement>,
    pub return_annotation: Option<TypeAst>,
    pub return_type: Type,
}

/// The name an import binds a module to.
#[derive(Debug)]
pub enum AssignName {
    Variable(String),
    Discard(String),
}

/// An `import` as written in a module.
#[derive(Debug)]
pub struct ImportDefinition {
    pub module: String,
    pub as_name: Option<AssignName>,
    pub unqualified_types: Vec<UnqualifiedImport>,
}

/// A top-level definition of a module.
#[derive(Debug)]
pub enum TypedDefinition {
    Function(TypedFunction),
    Import(ImportDefinition),
}

/// A module after type checking.
#[derive(Debug)]
pub struct TypedModule {
    pub name: String,
    pub definitions: Vec<TypedDefinition>,
}

impl TypedExpr {
    /// The span of the expression.
    pub open spec fn spec_location(&self) -> SrcSpan
        decreases self,
    {
        match self {
            TypedExpr::Int { location, .. } => *location,
            TypedExpr::Float { location, .. } => *location,
            TypedExpr::String { location, .. } => *location,
            TypedExpr::Var { location, .. } => *location,
            TypedExpr::Call { location, .. } => *location,
            TypedExpr::Block { location, .. } => *location,
            TypedExpr::Tuple { location, .. } => *location,
            TypedExpr::List { location, .. } => *location,
            TypedExpr::Case { location, .. } => *location,
            TypedExpr::Fn { location, .. } => *location,
            TypedExpr::Pipeline { location, .. } => *location,
        }
    }

    #[verifier::when_used_as_spec(spec_location)]
    pub fn location(&self) -> (r: SrcSpan)
        ensures
            r == self.spec_location(),
    {
        match self {
            TypedExpr::Int { location, .. } => *location,
            TypedExpr::Float { location, .. } => *location,
            TypedExpr::String { location, .. } => *location,
            TypedExpr::Var { location, .. } => *location,
            TypedExpr::Call { location, .. } => *location,
            TypedExpr::Block { location, .. } => *location,
            TypedExpr::Tuple { location, .. } => *location,
            TypedExpr::List { location, .. } => *location,
            TypedExpr::Case { location, .. } => *location,
            TypedExpr::Fn { location, .. } => *location,
            TypedExpr::Pipeline { location, .. } => *location,
        }
    }

    /// The type of the expression: for a pipeline, that of its last value.
    pub open spec fn spec_type(&self) -> Type
        decreases self,
    {
        match self {
            TypedExpr::Int { type_, .. } => *type_,
            TypedExpr::Float { type_, .. } => *type_,
            TypedExpr::String { type_, .. } => *type_,
            TypedExpr::Var { type_, .. } => *type_,
            TypedExpr::Call { type_, .. } => *type_,
            TypedExpr::Block { type_, .. } => *type_,
            TypedExpr::Tuple { type_, .. } => *type_,
            TypedExpr::List { type_, .. } => *type_,
            TypedExpr::Case { type_, .. } => *type_,
            TypedExpr::Fn { type_, .. } => *type_,
            TypedExpr::Pipeline { finally, .. } => finally.spec_type(),
        }
    }

    pub fn type_(&self) -> (r: &Type)
        ensures
            *r == self.spec_type(),
        decreases self,
    {
        match self {
            TypedExpr::Int { type_, .. } => type_,
            TypedExpr::Float { type_, .. } => type_,
            TypedExpr::String { type_, .. } => type_,
            TypedExpr::Var { type_, .. } => type_,
            TypedExpr::Call { type_, .. } => type_,
            TypedExpr::Block { type_, .. } => type_,
            TypedExpr::Tuple { type_, .. } => type_,
            TypedExpr::List { type_, .. } => type_,
            TypedExpr::Case { type_, .. } => type_,
            TypedExpr::Fn { type_, .. } => type_,
            TypedExpr::Pipeline { finally, .. } => finally.type_(),
        }
    }

    /// A literal number or string.
    pub open spec fn spec_is_simple_lit(&self) -> bool {
        self is Int || self is Float || self is String
    }

    #[verifier::when_used_as_spec(spec_is_simple_lit)]
    pub fn is_simple_lit(&self) -> (r: bool)
        ensures
            r == self.spec_is_simple_lit(),
    {
        match self {
            TypedExpr::Int { .. } | TypedExpr::Float { .. } | TypedExpr::String { .. } => true,
            _ => false,
        }
    }
}

/// Where each line of a source file starts.
#[derive(Debug)]
pub struct LineNumbers {
    pub line_starts: Vec<u32>,
}

/// The offsets at which lines start in text with the given bytes: 0, and
/// each offset just past a newline.
pub open spec fn line_starts_of(bytes: Seq<u8>) -> Seq<u32>
    decreases bytes.len(),
{
    if bytes.len() == 0 {
        seq![0u32]
    } else {
        let init = line_starts_of(bytes.subrange(0, bytes.len() - 1));
        if bytes[bytes.len() - 1] == 10u8 {
            init.push(bytes.len() as u32)
        } else {
            init
        }
    }
}

/// How many of the leading line starts are at or before `offset`: the
/// 1-based line that holds `offset`.
pub open spec fn line_index(starts: Seq<u32>, offset: u32) -> nat
    decreases starts.len(),
{
    if starts.len() == 0 || starts[0] > offset {
        0
    } else {
        1 + line_index(starts.drop_first(), offset)
    }
}

/// An editor position: 0-based line, and column within it.
#[derive(Clone, Copy, Debug, PartialEq, Eq)]
pub struct Position {
    pub line: u32,
    pub character: u32,
}

pub open spec fn position_of(starts: Seq<u32>, offset: u32) -> Position {
    let n = line_index(starts, offset);
    if n == 0 {
        Position { line: 0, character: offset }
    } else {
        Position { line: (n - 1) as u32, character: (offset - starts[n - 1]) as u32 }
    }
}

proof fn lemma_line_index_prefix(starts: Seq<u32>, offset: u32)
    ensures
        line_index(starts, offset) <= starts.len(),
        forall|i: int| 0 <= i < line_index(starts, offset) ==> starts[i] <= offset,
    decreases starts.len(),
{
    if starts.len() > 0 && starts[0] <= offset {
        lemma_line_index_prefix(starts.drop_first(), offset);
        assert forall|i: int| 0 <= i < line_index(starts, offset) implies starts[i] <= offset by {
            if i > 0 {
                assert(starts[i] == starts.drop_first()[i - 1]);
            }
        }
    }
}

impl LineNumbers {
    /// The line starts of a source text.
    pub fn new(src: &str) -> (r: LineNumbers)
        requires
            src.spec_bytes().len() < u32::MAX,
        ensures
            r.line_starts@ == line_starts_of(src.spec_bytes()),
    {
        let bytes = src.as_bytes();
        let mut starts: Vec<u32> = Vec::new();
        starts.push(0);
        let mut k: usize = 0;
        assert(bytes@.subrange(0, 0) =~= Seq::<u8>::empty());
        while k < bytes.len()
            invariant
                bytes@ == src.spec_bytes(),
                bytes@.len() < u32::MAX,
                k <= bytes@.len(),
                starts@ == line_starts_of(bytes@.subrange(0, k as int)),
            decreases bytes.len() - k,
        {
            assert(bytes@.subrange(0, k + 1).subrange(0, k as int) =~= bytes@.subrange(0, k as int));
            if bytes[k] == 10u8 {
                starts.push((k + 1) as u32);
            }
            k = k + 1;
        }
        assert(bytes@.subrange(0, bytes@.len() as int) =~= bytes@);
        LineNumbers { line_starts: starts }
    }

    /// The 1-based line that holds `offset`.
    pub fn line_number(&self, offset: u32) -> (r: usize)
        ensures
            r == line_index(self.line_starts@, offset),
    {
        let ghost all = self.line_starts@;
        let mut k: usize = 0;
        assert(all.subrange(0, all.len() as int) =~= all);
        while k < self.line_starts.len() && self.line_starts[k] <= offset
            invariant
                all == self.line_starts@,
                k <= all.len(),
                line_index(all, offset) == k + line_index(all.subrange(k as int, all.len() as int), offset),
            decreases all.len() - k,
        {
            let ghost rest = all.subrange(k as int, all.len() as int);
            assert(rest.drop_first() =~= all.subrange(k + 1, all.len() as int));
            k = k + 1;
        }
        k
    }

    /// The editor position of a byte offset.
    pub fn position(&self, offset: u32) -> (r: Position)
        ensures
            r == position_of(self.line_starts@, offset),
    {
        let n = self.line_number(offset);
        proof {
            lemma_line_index_prefix(self.line_starts@, offset);
        }
        if n == 0 {
            Position { line: 0, character: offset }
        } else {
            Position { line: (n - 1) as u32, character: offset - self.line_starts[n - 1] }
        }
    }
}

} // verus!
