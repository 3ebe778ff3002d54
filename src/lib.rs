//! Rendering of compiler types as text, and the inlay type hints that an
//! editor shows for inferred types.

mod ast;
mod doc;
mod hints;
mod letters;
mod printer;
mod table;
mod types;

pub use ast::{
    line_index, line_starts_of, position_of, AssignName, FunctionLiteralKind, ImportDefinition, LineNumbers,
    Position, SrcSpan, TypeAst, TypedArg, TypedDefinition, TypedExpr, TypedFunction, TypedModule,
    TypedPipelineAssignment, TypedStatement,
};
pub use doc::{cap, flat, layout, nest_depth, pretty, spaces, Doc, Document};
pub use hints::{
    binding_hint, default_hint, fn_return, fold_step, fresh, fresh_walk, get_inlay_hints, hints_view, module_env,
    module_hints, param_hints, pending_view, pipeline_hints, return_hint, step_fold, type_label, walk_definitions,
    walk_expr, walk_exprs, walk_function, walk_steps, walk_stmts, Env, HintView, InlayHint, InlayHintsConfig,
    Pending, Walk,
};
pub use letters::{alphabet, letter_name, letter_text};
pub use printer::{
    clashes, comma_break, context_name, find_import, find_unqualified, import_of, imports_of, imports_view,
    items_depth, module_imports, named_head, next_uid, opt_view, prelude_module, print_args, print_items,
    print_type, pretty_print, empty_session, qualify, text, type_depth, var_name, wrap_args, cat, ContextView, Import, ImportContext,
    ImportView, Printer, Session, UnqualifiedImport, UnqualifiedView, INDENT, LINE_WIDTH,
};
pub use table::{id_names, name_modules};
pub use types::{Publicity, Type, TypeVar};
