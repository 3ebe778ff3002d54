use vstd::prelude::*;
use vstd::string::StringExecFns;

use crate::doc::{flat, grouped, lemma_fits_stays_flat, layout, nest_depth, pretty, spaces, Doc, Document};
use crate::letters::{lemma_letter_names_distinct, letter_name, letter_text};
use crate::table::{
    get_id_name, get_name_module, id_names, insert_id_name, insert_name_module, name_modules,
    new_id_names, new_name_modules,
};
use crate::ast::{AssignName, ImportDefinition, TypedDefinition, TypedModule};
use crate::types::{Type, TypeVar};

verus! {

/// How far an argument list is indented when it breaks over lines.
pub const INDENT: usize = 2;

/// The width that printed types are laid out in.
pub const LINE_WIDTH: usize = 80;

/// A type made visible by name with `import module.{type Name as Local}`.
#[derive(Debug)]
pub struct UnqualifiedImport {
    pub name: String,
    pub as_name: Option<String>,
}

/// An import of a module, as the qualification of printed names sees it.
#[derive(Debug)]
pub struct Import {
    pub module: String,
    pub renaming: Option<String>,
    pub unqualified_types: Vec<UnqualifiedImport>,
}

/// The module that printed types are seen from, and what it imports.
#[derive(Debug)]
pub struct ImportContext {
    pub module: String,
    pub imports: Vec<Import>,
}

pub struct UnqualifiedView {
    pub name: Seq<char>,
    pub as_name: Option<Seq<char>>,
}

pub struct ImportView {
    pub module: Seq<char>,
    pub renaming: Option<Seq<char>>,
    pub unqualified: Seq<UnqualifiedView>,
}

pub struct ContextView {
    pub module: Seq<char>,
    pub imports: Seq<ImportView>,
}

pub open spec fn opt_view(o: Option<String>) -> Option<Seq<char>> {
    match o {
        Some(s) => Some(s@),
        None => None,
    }
}

impl UnqualifiedImport {
    pub open spec fn view(&self) -> UnqualifiedView {
        UnqualifiedView { name: self.name@, as_name: opt_view(self.as_name) }
    }
}

impl Import {
    pub open spec fn view(&self) -> ImportView {
        ImportView {
            module: self.module@,
            renaming: opt_view(self.renaming),
            unqualified: self.unqualified_types@.map_values(|u: UnqualifiedImport| u.view()),
        }
    }
}

pub open spec fn imports_view(imports: Seq<Import>) -> Seq<ImportView> {
    imports.map_values(|i: Import| i.view())
}

impl ImportContext {
    pub open spec fn view(&self) -> ContextView {
        ContextView { module: self.module@, imports: imports_view(self.imports@) }
    }
}

/// The state of one printing session.
pub struct Session {
    /// The name given to each variable seen so far.
    pub names: Map<u64, Seq<char>>,
    /// How many names have been handed out.
    pub uid: u64,
    /// For each name printed without a qualifier, the module it came from.
    pub printed: Map<Seq<char>, Seq<char>>,
    /// The module and imports that qualification follows, if any.
    pub context: Option<ContextView>,
}

/// The module whose types are always in scope.
pub open spec fn prelude_module() -> Seq<char> {
    "gleam"@
}

pub open spec fn qualify(module: Seq<char>, name: Seq<char>) -> Seq<char> {
    module + seq!['.'] + name
}

/// The first import of `module`.
pub open spec fn find_import(imports: Seq<ImportView>, module: Seq<char>) -> Option<ImportView>
    decreases imports.len(),
{
    if imports.len() == 0 {
        None
    } else if imports[0].module == module {
        Some(imports[0])
    } else {
        find_import(imports.drop_first(), module)
    }
}

/// The first unqualified import of the type `name`.
pub open spec fn find_unqualified(us: Seq<UnqualifiedView>, name: Seq<char>) -> Option<UnqualifiedView>
    decreases us.len(),
{
    if us.len() == 0 {
        None
    } else if us[0].name == name {
        Some(us[0])
    } else {
        find_unqualified(us.drop_first(), name)
    }
}

/// How the type `name` of `module` is written inside the context's module.
pub open spec fn context_name(ctx: ContextView, name: Seq<char>, module: Seq<char>) -> Seq<char> {
    if module == prelude_module() || module == ctx.module {
        name
    } else {
        match find_import(ctx.imports, module) {
            Some(i) => match find_unqualified(i.unqualified, name) {
                Some(u) => match u.as_name {
                    Some(local) => local,
                    None => name,
                },
                None => match i.renaming {
                    Some(alias) => qualify(alias, name),
                    None => qualify(module, name),
                },
            },
            None => qualify(module, name),
        }
    }
}

/// Without a context, a name is qualified only when it was printed before
/// for another module.
pub open spec fn clashes(s: Session, name: Seq<char>, module: Seq<char>) -> bool {
    s.printed.contains_key(name) && s.printed[name] != module
}

/// The name printed for the type `name` of `module`, and the session after.
pub open spec fn named_head(s: Session, name: Seq<char>, module: Seq<char>) -> (Session, Seq<char>) {
    match s.context {
        Some(ctx) => (s, context_name(ctx, name, module)),
        None => if clashes(s, name, module) {
            (s, qualify(module, name))
        } else {
            (Session { printed: s.printed.insert(name, module), ..s }, name)
        },
    }
}

pub open spec fn next_uid(u: u64) -> u64 {
    if u < u64::MAX { (u + 1) as u64 } else { u }
}

/// The name printed for the variable `id`, and the session after.
/// Only named types are recorded as printed names: a variable's letter is
/// not, so it never makes a named type of the same name qualified, and
/// printing a type again gives the same text.
pub open spec fn var_name(s: Session, id: u64) -> (Session, Seq<char>) {
    if s.names.contains_key(id) {
        (s, s.names[id])
    } else {
        let n = letter_name(s.uid as nat);
        (
            Session {
                names: s.names.insert(id, n),
                uid: next_uid(s.uid),
                ..s
            },
            n,
        )
    }
}

pub open spec fn text(s: Seq<char>) -> Doc {
    Doc::Text(s)
}

pub open spec fn cat(a: Doc, b: Doc) -> Doc {
    Doc::Cat(Box::new(a), Box::new(b))
}

/// A list of documents, already joined, laid out as an argument list.
pub open spec fn wrap_args(items: Doc) -> Doc {
    Doc::Group(
        Box::new(
            cat(
                Doc::Nest(INDENT as nat, Box::new(cat(Doc::Break { broken: Seq::empty(), unbroken: Seq::empty() }, items))),
                Doc::Break { broken: seq![','], unbroken: Seq::empty() },
            ),
        ),
    )
}

pub open spec fn comma_break() -> Doc {
    Doc::Break { broken: seq![','], unbroken: seq![',', ' '] }
}

/// The elements of an argument list, each grouped, joined by breakable commas.
pub open spec fn print_items(s: Session, ts: Seq<Type>) -> (Session, Doc)
    decreases ts,
{
    if ts.len() == 0 {
        (s, Doc::Nil)
    } else {
        let (s1, init) = print_items(s, ts.subrange(0, ts.len() - 1));
        let (s2, d) = print_type(s1, ts[ts.len() - 1]);
        let item = Doc::Group(Box::new(d));
        (s2, if ts.len() == 1 { item } else { cat(init, cat(comma_break(), item)) })
    }
}

/// An argument list: nothing when there are no arguments.
pub open spec fn print_args(s: Session, ts: Seq<Type>) -> (Session, Doc) {
    if ts.len() == 0 {
        (s, Doc::Nil)
    } else {
        let (s1, items) = print_items(s, ts);
        (s1, wrap_args(items))
    }
}

/// The document printed for `t`, and the session after.
pub open spec fn print_type(s: Session, t: Type) -> (Session, Doc)
    decreases t,
{
    match t {
        Type::Named { name, module, args, .. } => {
            let (s1, head) = named_head(s, name@, module@);
            if args@.len() == 0 {
                (s1, text(head))
            } else {
                let (s2, items) = print_items(s1, args@);
                (s2, cat(cat(text(head), text(seq!['('])), cat(wrap_args(items), text(seq![')']))))
            }
        },
        Type::Fn { args, retrn } => {
            let (s1, a) = if args@.len() == 0 {
                (s, Doc::Nil)
            } else {
                let (s1, items) = print_items(s, args@);
                (s1, wrap_args(items))
            };
            let (s2, r) = print_type(s1, *retrn);
            (
                s2,
                cat(
                    cat(cat(text("fn("@), a), text(") ->"@)),
                    Doc::Group(
                        Box::new(
                            Doc::Nest(
                                INDENT as nat,
                                Box::new(cat(Doc::Break { broken: Seq::empty(), unbroken: seq![' '] }, r)),
                            ),
                        ),
                    ),
                ),
            )
        },
        Type::Tuple { elems } => {
            let (s1, a) = if elems@.len() == 0 {
                (s, Doc::Nil)
            } else {
                let (s1, items) = print_items(s, elems@);
                (s1, wrap_args(items))
            };
            (s1, cat(cat(text("#("@), a), text(seq![')'])))
        },
        Type::Var { type_ } => match *type_ {
            TypeVar::Link { type_ } => print_type(s, *type_),
            TypeVar::Unbound { id } => {
                let (s1, n) = var_name(s, id);
                (s1, text(n))
            },
            TypeVar::Generic { id } => {
                let (s1, n) = var_name(s, id);
                (s1, text(n))
            },
        },
    }
}


/// The import a module definition makes, as qualification sees it: a
/// discarded module alias counts as none.
pub open spec fn import_of(def: ImportDefinition) -> ImportView {
    ImportView {
        module: def.module@,
        renaming: match def.as_name {
            Some(AssignName::Variable(n)) => Some(n@),
            _ => None,
        },
        unqualified: def.unqualified_types@.map_values(|u: UnqualifiedImport| u.view()),
    }
}

/// The imports among a module's definitions, in order.
pub open spec fn module_imports(defs: Seq<TypedDefinition>) -> Seq<ImportView>
    decreases defs.len(),
{
    if defs.len() == 0 {
        Seq::empty()
    } else {
        let init = module_imports(defs.subrange(0, defs.len() - 1));
        match defs[defs.len() - 1] {
            TypedDefinition::Import(i) => init.push(import_of(i)),
            _ => init,
        }
    }
}

impl Import {
    /// The import that a module definition makes.
    pub fn from_definition(def: &ImportDefinition) -> (r: Import)
        ensures
            r.view() == import_of(*def),
    {
        let renaming = match &def.as_name {
            Some(AssignName::Variable(n)) => Some(n.clone()),
            _ => None,
        };
        let mut unqualified_types: Vec<UnqualifiedImport> = Vec::new();
        let mut k: usize = 0;
        while k < def.unqualified_types.len()
            invariant
                k <= def.unqualified_types@.len(),
                unqualified_types@.len() == k,
                unqualified_types@.map_values(|u: UnqualifiedImport| u.view()) =~= def.unqualified_types@.subrange(
                    0,
                    k as int,
                ).map_values(|u: UnqualifiedImport| u.view()),
            decreases def.unqualified_types.len() - k,
        {
            let u = &def.unqualified_types[k];
            let ghost before = unqualified_types@;
            let item = UnqualifiedImport { name: u.name.clone(), as_name: clone_opt(&u.as_name) };
            assert(item.view() == u.view());
            unqualified_types.push(item);
            assert(unqualified_types@ == before.push(item));
            let ghost lhs = unqualified_types@.map_values(|u: UnqualifiedImport| u.view());
            let ghost rhs = def.unqualified_types@.subrange(0, k + 1).map_values(|u: UnqualifiedImport| u.view());
            assert(lhs.len() == rhs.len());
            assert forall|j: int| 0 <= j < lhs.len() implies lhs[j] == rhs[j] by {
                if j < k {
                    assert(before.map_values(|u: UnqualifiedImport| u.view())[j] == def.unqualified_types@.subrange(0, k as int).map_values(|u: UnqualifiedImport| u.view())[j]);
                }
            }
            k = k + 1;
        }
        assert(def.unqualified_types@.subrange(0, def.unqualified_types@.len() as int) =~= def.unqualified_types@);
        Import { module: def.module.clone(), renaming, unqualified_types }
    }
}

/// The imports that a module makes, in order.
pub fn imports_of(module: &TypedModule) -> (r: Vec<Import>)
    ensures
        imports_view(r@) == module_imports(module.definitions@),
{
    let mut r: Vec<Import> = Vec::new();
    let mut k: usize = 0;
    while k < module.definitions.len()
        invariant
            k <= module.definitions@.len(),
            imports_view(r@) =~= module_imports(module.definitions@.subrange(0, k as int)),
        decreases module.definitions.len() - k,
    {
        let ghost sub = module.definitions@.subrange(0, k + 1);
        assert(sub.subrange(0, k as int) =~= module.definitions@.subrange(0, k as int));
        match &module.definitions[k] {
            TypedDefinition::Import(i) => {
                let imp = Import::from_definition(i);
                r.push(imp);
            },
            _ => {},
        }
        k = k + 1;
    }
    assert(module.definitions@.subrange(0, module.definitions@.len() as int) =~= module.definitions@);
    r
}

/// A variable seen for the first time is named after how many variables the
/// session has named before, whatever its id: two sessions at the same count
/// give their next new variables the same name.
pub proof fn lemma_names_follow_discovery_order(s1: Session, id1: u64, s2: Session, id2: u64)
    requires
        !s1.names.contains_key(id1),
        !s2.names.contains_key(id2),
        s1.uid == s2.uid,
    ensures
        var_name(s1, id1).1 == letter_name(s1.uid as nat),
        var_name(s2, id2).1 == var_name(s1, id1).1,
        var_name(s1, id1).0.uid == next_uid(s1.uid),
        var_name(s1, id1).0.names[id1] == letter_name(s1.uid as nat),
{
}

/// Once named, a variable keeps its name for the rest of the session.
pub proof fn lemma_names_are_stable(s: Session, id: u64)
    ensures
        var_name(var_name(s, id).0, id).1 == var_name(s, id).1,
        var_name(var_name(s, id).0, id).0.names == var_name(s, id).0.names,
        var_name(var_name(s, id).0, id).0.uid == var_name(s, id).0.uid,
{
}

/// The names of a session are those of the first `uid` discovery positions,
/// each given to one variable.
pub open spec fn numbered(s: Session) -> bool {
    &&& s.names.dom().finite()
    &&& s.names.dom().len() == s.uid
    &&& forall|id: u64| #[trigger] s.names.contains_key(id) ==> exists|k: nat| k < s.uid && s.names[id] == letter_name(k)
    &&& forall|i: u64, j: u64|
        #[trigger] s.names.contains_key(i) && #[trigger] s.names.contains_key(j) && i != j ==> s.names[i] != s.names[j]
}

/// A fresh session is numbered.
pub proof fn lemma_fresh_numbered(s: Session)
    requires
        s.names.dom().is_empty(),
        s.uid == 0,
    ensures
        numbered(s),
{
    assert(s.names.dom() =~= Set::empty());
}

/// In a numbered session, a variable not seen before is named after the
/// number of distinct variables seen before it, and the session stays
/// numbered: distinct variables get distinct names, in discovery order.
pub proof fn lemma_discovery_order(s: Session, id: u64)
    requires
        numbered(s),
        s.uid < u64::MAX,
    ensures
        numbered(var_name(s, id).0),
        !s.names.contains_key(id) ==> var_name(s, id).1 == letter_name(s.names.dom().len()),
        s.names.contains_key(id) ==> var_name(s, id).1 == s.names[id],
{
    if !s.names.contains_key(id) {
        let s1 = var_name(s, id).0;
        let n = letter_name(s.uid as nat);
        assert(s1.names.dom() =~= s.names.dom().insert(id));
        assert forall|x: u64| #[trigger] s1.names.contains_key(x) implies exists|k: nat|
            k < s1.uid && s1.names[x] == letter_name(k) by {
            if x == id {
                assert(s1.names[x] == letter_name(s.uid as nat));
            } else {
                let k = choose|k: nat| k < s.uid && s.names[x] == letter_name(k);
                assert(s1.names[x] == letter_name(k));
            }
        }
        assert forall|i: u64, j: u64|
            #[trigger] s1.names.contains_key(i) && #[trigger] s1.names.contains_key(j) && i != j implies s1.names[i]
            != s1.names[j] by {
            if i == id || j == id {
                let other = if i == id { j } else { i };
                assert(s.names.contains_key(other));
                let k = choose|k: nat| k < s.uid && s.names[other] == letter_name(k);
                lemma_letter_names_distinct(k, s.uid as nat);
            } else {
                assert(s.names.contains_key(i) && s.names.contains_key(j));
            }
        }
    }
}

/// How many variable occurrences a type holds, following links.
pub open spec fn var_count(t: Type) -> nat
    decreases t,
{
    match t {
        Type::Named { args, .. } => items_var_count(args@),
        Type::Fn { args, retrn } => items_var_count(args@) + var_count(*retrn),
        Type::Tuple { elems } => items_var_count(elems@),
        Type::Var { type_ } => match *type_ {
            TypeVar::Link { type_ } => var_count(*type_),
            _ => 1,
        },
    }
}

pub open spec fn items_var_count(ts: Seq<Type>) -> nat
    decreases ts,
{
    if ts.len() == 0 {
        0
    } else {
        items_var_count(ts.subrange(0, ts.len() - 1)) + var_count(ts[ts.len() - 1])
    }
}

/// Printing a type keeps a session numbered, so the variables of a type are
/// named in the order they are first met, and the counter grows by at most
/// the number of variable occurrences.
pub proof fn lemma_print_numbered(s: Session, t: Type)
    requires
        numbered(s),
        s.uid + var_count(t) < u64::MAX,
    ensures
        numbered(print_type(s, t).0),
        print_type(s, t).0.uid <= s.uid + var_count(t),
    decreases t,
{
    match t {
        Type::Named { name, module, args, .. } => lemma_items_numbered(named_head(s, name@, module@).0, args@),
        Type::Fn { args, retrn } => {
            lemma_items_numbered(s, args@);
            let s1 = if args@.len() == 0 { s } else { print_items(s, args@).0 };
            lemma_print_numbered(s1, *retrn);
        },
        Type::Tuple { elems } => lemma_items_numbered(s, elems@),
        Type::Var { type_ } => match *type_ {
            TypeVar::Link { type_ } => lemma_print_numbered(s, *type_),
            TypeVar::Unbound { id } => lemma_discovery_order(s, id),
            TypeVar::Generic { id } => lemma_discovery_order(s, id),
        },
    }
}

proof fn lemma_items_numbered(s: Session, ts: Seq<Type>)
    requires
        numbered(s),
        s.uid + items_var_count(ts) < u64::MAX,
    ensures
        numbered(print_items(s, ts).0),
        print_items(s, ts).0.uid <= s.uid + items_var_count(ts),
    decreases ts,
{
    if ts.len() > 0 {
        let init = ts.subrange(0, ts.len() - 1);
        lemma_items_numbered(s, init);
        lemma_print_numbered(print_items(s, init).0, ts[ts.len() - 1]);
    }
}

/// `u` is `t` with every variable id `x` replaced by `f(x)`, unbound and
/// generic variables possibly swapped.
pub open spec fn renamed(t: Type, u: Type, f: spec_fn(u64) -> u64) -> bool
    decreases t,
{
    match (t, u) {
        (Type::Named { name: n1, module: m1, args: a1, .. }, Type::Named { name: n2, module: m2, args: a2, .. }) => n1@
            == n2@ && m1@ == m2@ && items_renamed(a1@, a2@, f),
        (Type::Fn { args: a1, retrn: r1 }, Type::Fn { args: a2, retrn: r2 }) => items_renamed(a1@, a2@, f) && renamed(
            *r1,
            *r2,
            f,
        ),
        (Type::Tuple { elems: e1 }, Type::Tuple { elems: e2 }) => items_renamed(e1@, e2@, f),
        (Type::Var { type_: v1 }, Type::Var { type_: v2 }) => match (*v1, *v2) {
            (TypeVar::Link { type_: l1 }, TypeVar::Link { type_: l2 }) => renamed(*l1, *l2, f),
            (TypeVar::Link { .. }, _) => false,
            (_, TypeVar::Link { .. }) => false,
            (v1, v2) => var_id(v2) == f(var_id(v1)),
        },
        _ => false,
    }
}

pub open spec fn var_id(v: TypeVar) -> u64 {
    match v {
        TypeVar::Unbound { id } => id,
        TypeVar::Generic { id } => id,
        TypeVar::Link { .. } => 0,
    }
}

pub open spec fn items_renamed(ts: Seq<Type>, us: Seq<Type>, f: spec_fn(u64) -> u64) -> bool
    decreases ts,
{
    ts.len() == us.len() && (ts.len() == 0 || (items_renamed(ts.subrange(0, ts.len() - 1), us.subrange(0, us.len() - 1), f)
        && renamed(ts[ts.len() - 1], us[us.len() - 1], f)))
}

/// Two sessions that differ only by renaming variable ids through `f`.
pub open spec fn corresponds(a: Session, b: Session, f: spec_fn(u64) -> u64) -> bool {
    &&& a.uid == b.uid
    &&& a.printed == b.printed
    &&& a.context == b.context
    &&& forall|id: u64| #[trigger] a.names.contains_key(id) == b.names.contains_key(f(id))
    &&& forall|id: u64| #[trigger] a.names.contains_key(id) ==> a.names[id] == b.names[f(id)]
}

pub open spec fn injective(f: spec_fn(u64) -> u64) -> bool {
    forall|x: u64, y: u64| x != y ==> #[trigger] f(x) != #[trigger] f(y)
}

proof fn lemma_renamed_print(a: Session, b: Session, t: Type, u: Type, f: spec_fn(u64) -> u64)
    requires
        injective(f),
        corresponds(a, b, f),
        renamed(t, u, f),
    ensures
        corresponds(print_type(a, t).0, print_type(b, u).0, f),
        print_type(a, t).1 == print_type(b, u).1,
    decreases t,
{
    match (t, u) {
        (Type::Named { name: n1, module: m1, args: a1, .. }, Type::Named { name: n2, module: m2, args: a2, .. }) => {
            let a1s = named_head(a, n1@, m1@).0;
            let b1s = named_head(b, n2@, m2@).0;
            lemma_renamed_items(a1s, b1s, a1@, a2@, f);
        },
        (Type::Fn { args: a1, retrn: r1 }, Type::Fn { args: a2, retrn: r2 }) => {
            lemma_renamed_items(a, b, a1@, a2@, f);
            let sa = if a1@.len() == 0 { a } else { print_items(a, a1@).0 };
            let sb = if a2@.len() == 0 { b } else { print_items(b, a2@).0 };
            lemma_renamed_print(sa, sb, *r1, *r2, f);
        },
        (Type::Tuple { elems: e1 }, Type::Tuple { elems: e2 }) => {
            lemma_renamed_items(a, b, e1@, e2@, f);
        },
        (Type::Var { type_: v1 }, Type::Var { type_: v2 }) => match (*v1, *v2) {
            (TypeVar::Link { type_: l1 }, TypeVar::Link { type_: l2 }) => lemma_renamed_print(a, b, *l1, *l2, f),
            (v1, v2) => {
                let x = var_id(v1);
                assert(a.names.contains_key(x) == b.names.contains_key(f(x)));
                let a2 = var_name(a, x).0;
                let b2 = var_name(b, f(x)).0;
                assert forall|id: u64| #[trigger] a2.names.contains_key(id) == b2.names.contains_key(f(id)) by {
                    assert(a.names.contains_key(id) == b.names.contains_key(f(id)));
                }
                assert forall|id: u64| #[trigger] a2.names.contains_key(id) implies a2.names[id] == b2.names[f(id)] by {
                    assert(a.names.contains_key(id) == b.names.contains_key(f(id)));
                }
            },
        },
        _ => {},
    }
}

proof fn lemma_renamed_items(a: Session, b: Session, ts: Seq<Type>, us: Seq<Type>, f: spec_fn(u64) -> u64)
    requires
        injective(f),
        corresponds(a, b, f),
        items_renamed(ts, us, f),
    ensures
        corresponds(print_items(a, ts).0, print_items(b, us).0, f),
        print_items(a, ts).1 == print_items(b, us).1,
    decreases ts,
{
    if ts.len() > 0 {
        let ti = ts.subrange(0, ts.len() - 1);
        let ui = us.subrange(0, us.len() - 1);
        lemma_renamed_items(a, b, ti, ui, f);
        lemma_renamed_print(print_items(a, ti).0, print_items(b, ui).0, ts[ts.len() - 1], us[us.len() - 1], f);
    }
}

/// Letters depend only on the order in which distinct variables are first
/// met, not on their ids: renaming the variables of a type through an
/// injective map leaves the text printed in a fresh session unchanged.
pub proof fn lemma_renaming_keeps_text(t: Type, u: Type, f: spec_fn(u64) -> u64)
    requires
        injective(f),
        renamed(t, u, f),
    ensures
        print_type(empty_session(), t).1 == print_type(empty_session(), u).1,
{
    lemma_renamed_print(empty_session(), empty_session(), t, u, f);
}

/// The session after naming the variables `ids`, in order, from a fresh one.
pub open spec fn named_in_order(ids: Seq<u64>) -> Session
    decreases ids.len(),
{
    if ids.len() == 0 {
        empty_session()
    } else {
        var_name(named_in_order(ids.subrange(0, ids.len() - 1)), ids[ids.len() - 1]).0
    }
}

/// The distinct ids among `ids`.
pub open spec fn ids_seen(ids: Seq<u64>) -> Set<u64> {
    Set::new(|x: u64| ids.contains(x))
}

proof fn lemma_named_in_order(ids: Seq<u64>)
    requires
        ids.len() < u64::MAX,
    ensures
        numbered(named_in_order(ids)),
        named_in_order(ids).names.dom() == ids_seen(ids),
        named_in_order(ids).uid <= ids.len(),
    decreases ids.len(),
{
    if ids.len() == 0 {
        lemma_fresh_numbered(empty_session());
        assert(ids_seen(ids) =~= Set::empty());
        assert(empty_session().names.dom() =~= Set::empty());
    } else {
        let init = ids.subrange(0, ids.len() - 1);
        let x = ids[ids.len() - 1];
        lemma_named_in_order(init);
        let s = named_in_order(init);
        lemma_discovery_order(s, x);
        assert(ids_seen(ids) =~= ids_seen(init).insert(x)) by {
            assert forall|y: u64| ids.contains(y) <==> init.contains(y) || y == x by {
                if ids.contains(y) {
                    let k = choose|k: int| 0 <= k < ids.len() && ids[k] == y;
                    if k < ids.len() - 1 {
                        assert(init[k] == y);
                    }
                }
                if init.contains(y) {
                    let k = choose|k: int| 0 <= k < init.len() && init[k] == y;
                    assert(ids[k] == y);
                }
                assert(ids[ids.len() - 1] == x);
            }
        }
        assert(var_name(s, x).0.names.dom() =~= s.names.dom().insert(x));
    }
}

/// From a fresh session, each variable met for the first time is named after
/// the number of distinct variables met before it, whatever the ids: the
/// first three distinct ones get `a`, `b`, `c`, the 27th `aa`.
pub proof fn lemma_names_in_discovery_order(ids: Seq<u64>, i: int)
    requires
        0 <= i < ids.len(),
        ids.len() < u64::MAX,
        !ids.subrange(0, i).contains(ids[i]),
    ensures
        var_name(named_in_order(ids.subrange(0, i)), ids[i]).1 == letter_name(ids_seen(ids.subrange(0, i)).len()),
{
    let pre = ids.subrange(0, i);
    lemma_named_in_order(pre);
    let s = named_in_order(pre);
    assert(!s.names.contains_key(ids[i]));
    lemma_discovery_order(s, ids[i]);
}

/// With a context: the current module's types and the prelude's are never
/// qualified; a type of a module not imported is qualified by the module;
/// one of a renamed import by the new name; one imported unqualified is
/// written bare, or by its local name, whatever the import's own renaming.
pub proof fn lemma_qualification(ctx: ContextView, name: Seq<char>, module: Seq<char>)
    ensures
        context_name(ctx, name, ctx.module) == name,
        context_name(ctx, name, prelude_module()) == name,
        module != prelude_module() && module != ctx.module && find_import(ctx.imports, module) is None
            ==> context_name(ctx, name, module) == qualify(module, name),
        ({
            match find_import(ctx.imports, module) {
                Some(i) => (module != prelude_module() && module != ctx.module) ==> {
                    &&& find_unqualified(i.unqualified, name) is None ==> context_name(ctx, name, module) == qualify(
                        match i.renaming {
                            Some(alias) => alias,
                            None => module,
                        },
                        name,
                    )
                    &&& (match find_unqualified(i.unqualified, name) {
                        Some(u) => context_name(ctx, name, module) == match u.as_name {
                            Some(local) => local,
                            None => name,
                        },
                        None => true,
                    })
                },
                None => true,
            }
        }),
{
}

/// A named type without arguments, with the given name and module.
pub open spec fn plain_named(t: Type, name: Seq<char>, module: Seq<char>) -> bool {
    match t {
        Type::Named { name: n, module: m, args, .. } => n@ == name && m@ == module && args@.len() == 0,
        _ => false,
    }
}

/// Without a context: after `name` of module `a` was printed bare, the same
/// name of another module `b` is qualified, while `a`'s stays bare.
pub proof fn lemma_clash_detection(s: Session, ta: Type, tb: Type, name: Seq<char>, a: Seq<char>, b: Seq<char>)
    requires
        s.context is None,
        plain_named(ta, name, a),
        plain_named(tb, name, b),
        a != b,
        !clashes(s, name, a),
    ensures
        flat(print_type(s, ta).1) == name,
        flat(print_type(print_type(s, ta).0, tb).1) == qualify(b, name),
        flat(print_type(print_type(s, ta).0, ta).1) == name,
{
    let s1 = print_type(s, ta).0;
    assert(s1.printed[name] == a);
}

/// A printed type has all its breaks inside groups.
proof fn lemma_print_grouped(s: Session, t: Type)
    ensures
        grouped(print_type(s, t).1),
    decreases t,
{
    reveal_with_fuel(grouped, 5);
    match t {
        Type::Var { type_ } => match *type_ {
            TypeVar::Link { type_ } => lemma_print_grouped(s, *type_),
            _ => {},
        },
        _ => {},
    }
}

/// A type whose one-line text fits in the line width after the initial
/// indentation is printed on one line.
pub proof fn lemma_fitting_type_stays_on_one_line(s: Session, t: Type, initial_indent: nat)
    requires
        initial_indent + flat(print_type(s, t).1).len() <= LINE_WIDTH,
    ensures
        pretty(
            Doc::Nest(initial_indent, Box::new(cat(text(spaces(initial_indent)), print_type(s, t).1))),
            LINE_WIDTH as nat,
        ) == spaces(initial_indent) + flat(print_type(s, t).1),
{
    let d = print_type(s, t).1;
    lemma_print_grouped(s, t);
    let full = cat(text(spaces(initial_indent)), d);
    assert(grouped(text(spaces(initial_indent))));
    assert(grouped(full));
    assert(flat(text(spaces(initial_indent))) == spaces(initial_indent));
    assert(flat(full) == spaces(initial_indent) + flat(d));
    lemma_fits_stays_flat(full, LINE_WIDTH as nat, initial_indent, 0);
}

/// The document for `t` in a context, with every variable's name fixed.
pub open spec fn doc_with(names: Map<u64, Seq<char>>, ctx: ContextView, t: Type) -> Doc
    decreases t,
{
    match t {
        Type::Named { name, module, args, .. } => {
            let head = context_name(ctx, name@, module@);
            if args@.len() == 0 {
                text(head)
            } else {
                cat(cat(text(head), text(seq!['('])), cat(wrap_args(items_with(names, ctx, args@)), text(seq![')'])))
            }
        },
        Type::Fn { args, retrn } => {
            let a = if args@.len() == 0 { Doc::Nil } else { wrap_args(items_with(names, ctx, args@)) };
            cat(
                cat(cat(text("fn("@), a), text(") ->"@)),
                Doc::Group(
                    Box::new(
                        Doc::Nest(
                            INDENT as nat,
                            Box::new(cat(Doc::Break { broken: Seq::empty(), unbroken: seq![' '] }, doc_with(names, ctx, *retrn))),
                        ),
                    ),
                ),
            )
        },
        Type::Tuple { elems } => {
            let a = if elems@.len() == 0 { Doc::Nil } else { wrap_args(items_with(names, ctx, elems@)) };
            cat(cat(text("#("@), a), text(seq![')']))
        },
        Type::Var { type_ } => match *type_ {
            TypeVar::Link { type_ } => doc_with(names, ctx, *type_),
            TypeVar::Unbound { id } => text(names[id]),
            TypeVar::Generic { id } => text(names[id]),
        },
    }
}

pub open spec fn items_with(names: Map<u64, Seq<char>>, ctx: ContextView, ts: Seq<Type>) -> Doc
    decreases ts,
{
    if ts.len() == 0 {
        Doc::Nil
    } else {
        let init = items_with(names, ctx, ts.subrange(0, ts.len() - 1));
        let item = Doc::Group(Box::new(doc_with(names, ctx, ts[ts.len() - 1])));
        if ts.len() == 1 { item } else { cat(init, cat(comma_break(), item)) }
    }
}

/// Every variable of `t` has a name in `names`.
pub open spec fn vars_named(names: Map<u64, Seq<char>>, t: Type) -> bool
    decreases t,
{
    match t {
        Type::Named { args, .. } => items_named(names, args@),
        Type::Fn { args, retrn } => items_named(names, args@) && vars_named(names, *retrn),
        Type::Tuple { elems } => items_named(names, elems@),
        Type::Var { type_ } => match *type_ {
            TypeVar::Link { type_ } => vars_named(names, *type_),
            TypeVar::Unbound { id } => names.contains_key(id),
            TypeVar::Generic { id } => names.contains_key(id),
        },
    }
}

pub open spec fn items_named(names: Map<u64, Seq<char>>, ts: Seq<Type>) -> bool
    decreases ts,
{
    if ts.len() == 0 {
        true
    } else {
        items_named(names, ts.subrange(0, ts.len() - 1)) && vars_named(names, ts[ts.len() - 1])
    }
}

/// Every name of `a` stays the same in `b`.
pub open spec fn extends(a: Map<u64, Seq<char>>, b: Map<u64, Seq<char>>) -> bool {
    forall|k: u64| #[trigger] a.contains_key(k) ==> b.contains_key(k) && b[k] == a[k]
}

proof fn lemma_extends_trans(a: Map<u64, Seq<char>>, b: Map<u64, Seq<char>>, c: Map<u64, Seq<char>>)
    requires
        extends(a, b),
        extends(b, c),
    ensures
        extends(a, c),
{
    assert forall|k: u64| #[trigger] a.contains_key(k) implies c.contains_key(k) && c[k] == a[k] by {
        assert(b.contains_key(k));
    }
}

proof fn lemma_doc_with_extends(a: Map<u64, Seq<char>>, b: Map<u64, Seq<char>>, ctx: ContextView, t: Type)
    requires
        vars_named(a, t),
        extends(a, b),
    ensures
        vars_named(b, t),
        doc_with(a, ctx, t) == doc_with(b, ctx, t),
    decreases t,
{
    match t {
        Type::Named { args, .. } => lemma_items_with_extends(a, b, ctx, args@),
        Type::Fn { args, retrn } => {
            lemma_items_with_extends(a, b, ctx, args@);
            lemma_doc_with_extends(a, b, ctx, *retrn);
        },
        Type::Tuple { elems } => lemma_items_with_extends(a, b, ctx, elems@),
        Type::Var { type_ } => match *type_ {
            TypeVar::Link { type_ } => lemma_doc_with_extends(a, b, ctx, *type_),
            _ => {},
        },
    }
}

proof fn lemma_items_with_extends(a: Map<u64, Seq<char>>, b: Map<u64, Seq<char>>, ctx: ContextView, ts: Seq<Type>)
    requires
        items_named(a, ts),
        extends(a, b),
    ensures
        items_named(b, ts),
        items_with(a, ctx, ts) == items_with(b, ctx, ts),
    decreases ts,
{
    if ts.len() > 0 {
        lemma_items_with_extends(a, b, ctx, ts.subrange(0, ts.len() - 1));
        lemma_doc_with_extends(a, b, ctx, ts[ts.len() - 1]);
    }
}

/// With a context, printing only adds names, names every variable of the
/// type, and gives the document that those final names give.
proof fn lemma_print_in_context(s: Session, t: Type)
    requires
        s.context is Some,
    ensures
        print_type(s, t).0.context == s.context,
        extends(s.names, print_type(s, t).0.names),
        vars_named(print_type(s, t).0.names, t),
        print_type(s, t).1 == doc_with(print_type(s, t).0.names, s.context->0, t),
    decreases t,
{
    let ctx = s.context->0;
    match t {
        Type::Named { name, module, args, .. } => {
            lemma_items_in_context(s, args@);
            assert(extends(s.names, s.names));
        },
        Type::Fn { args, retrn } => {
            lemma_items_in_context(s, args@);
            assert(extends(s.names, s.names));
            let s1 = if args@.len() == 0 { s } else { print_items(s, args@).0 };
            lemma_print_in_context(s1, *retrn);
            let s2 = print_type(s1, *retrn).0;
            if args@.len() > 0 {
                lemma_items_with_extends(s1.names, s2.names, ctx, args@);
            } else {
                assert(items_named(s2.names, args@));
            }
            lemma_extends_trans(s.names, s1.names, s2.names);
        },
        Type::Tuple { elems } => {
            lemma_items_in_context(s, elems@);
            assert(extends(s.names, s.names));
        },
        Type::Var { type_ } => match *type_ {
            TypeVar::Link { type_ } => lemma_print_in_context(s, *type_),
            TypeVar::Unbound { id } => {
                let s1 = var_name(s, id).0;
                assert(s1.names.contains_key(id));
                assert(extends(s.names, s1.names));
            },
            TypeVar::Generic { id } => {
                let s1 = var_name(s, id).0;
                assert(s1.names.contains_key(id));
                assert(extends(s.names, s1.names));
            },
        },
    }
}

proof fn lemma_items_in_context(s: Session, ts: Seq<Type>)
    requires
        s.context is Some,
    ensures
        print_items(s, ts).0.context == s.context,
        extends(s.names, print_items(s, ts).0.names),
        items_named(print_items(s, ts).0.names, ts),
        print_items(s, ts).1 == items_with(print_items(s, ts).0.names, s.context->0, ts),
    decreases ts,
{
    if ts.len() > 0 {
        let ctx = s.context->0;
        let init = ts.subrange(0, ts.len() - 1);
        lemma_items_in_context(s, init);
        let s1 = print_items(s, init).0;
        lemma_print_in_context(s1, ts[ts.len() - 1]);
        let s2 = print_type(s1, ts[ts.len() - 1]).0;
        lemma_items_with_extends(s1.names, s2.names, ctx, init);
        lemma_extends_trans(s.names, s1.names, s2.names);
    } else {
        assert(extends(s.names, s.names));
    }
}

/// With a context, printing the same type twice in one session gives the
/// same document, so the same text.
pub proof fn lemma_print_twice(s: Session, t: Type)
    requires
        s.context is Some,
    ensures
        print_type(print_type(s, t).0, t).1 == print_type(s, t).1,
{
    let s1 = print_type(s, t).0;
    lemma_print_in_context(s, t);
    lemma_print_in_context(s1, t);
    let s2 = print_type(s1, t).0;
    lemma_doc_with_extends(s1.names, s2.names, s.context->0, t);
}

/// Every entry of `a` stays the same in `b`.
pub open spec fn keeps(a: Map<Seq<char>, Seq<char>>, b: Map<Seq<char>, Seq<char>>) -> bool {
    forall|n: Seq<char>| #[trigger] a.contains_key(n) ==> b.contains_key(n) && b[n] == a[n]
}

/// The name written for the type `name` of `module` when the modules first
/// printed for each name are fixed.
pub open spec fn head_with(printed: Map<Seq<char>, Seq<char>>, name: Seq<char>, module: Seq<char>) -> Seq<char> {
    if printed.contains_key(name) && printed[name] != module {
        qualify(module, name)
    } else {
        name
    }
}

/// The document for `t` without a context, with every variable's name and
/// every module first printed for a name fixed.
pub open spec fn doc_fixed(names: Map<u64, Seq<char>>, printed: Map<Seq<char>, Seq<char>>, t: Type) -> Doc
    decreases t,
{
    match t {
        Type::Named { name, module, args, .. } => {
            let head = head_with(printed, name@, module@);
            if args@.len() == 0 {
                text(head)
            } else {
                cat(cat(text(head), text(seq!['('])), cat(wrap_args(items_fixed(names, printed, args@)), text(seq![')'])))
            }
        },
        Type::Fn { args, retrn } => {
            let a = if args@.len() == 0 { Doc::Nil } else { wrap_args(items_fixed(names, printed, args@)) };
            cat(
                cat(cat(text("fn("@), a), text(") ->"@)),
                Doc::Group(
                    Box::new(
                        Doc::Nest(
                            INDENT as nat,
                            Box::new(
                                cat(Doc::Break { broken: Seq::empty(), unbroken: seq![' '] }, doc_fixed(names, printed, *retrn)),
                            ),
                        ),
                    ),
                ),
            )
        },
        Type::Tuple { elems } => {
            let a = if elems@.len() == 0 { Doc::Nil } else { wrap_args(items_fixed(names, printed, elems@)) };
            cat(cat(text("#("@), a), text(seq![')']))
        },
        Type::Var { type_ } => match *type_ {
            TypeVar::Link { type_ } => doc_fixed(names, printed, *type_),
            TypeVar::Unbound { id } => text(names[id]),
            TypeVar::Generic { id } => text(names[id]),
        },
    }
}

pub open spec fn items_fixed(names: Map<u64, Seq<char>>, printed: Map<Seq<char>, Seq<char>>, ts: Seq<Type>) -> Doc
    decreases ts,
{
    if ts.len() == 0 {
        Doc::Nil
    } else {
        let init = items_fixed(names, printed, ts.subrange(0, ts.len() - 1));
        let item = Doc::Group(Box::new(doc_fixed(names, printed, ts[ts.len() - 1])));
        if ts.len() == 1 { item } else { cat(init, cat(comma_break(), item)) }
    }
}

proof fn lemma_context_kept(s: Session, t: Type)
    ensures
        print_type(s, t).0.context == s.context,
    decreases t,
{
    match t {
        Type::Named { name, module, args, .. } => lemma_items_context_kept(named_head(s, name@, module@).0, args@),
        Type::Fn { args, retrn } => {
            lemma_items_context_kept(s, args@);
            let s1 = if args@.len() == 0 { s } else { print_items(s, args@).0 };
            lemma_context_kept(s1, *retrn);
        },
        Type::Tuple { elems } => lemma_items_context_kept(s, elems@),
        Type::Var { type_ } => match *type_ {
            TypeVar::Link { type_ } => lemma_context_kept(s, *type_),
            _ => {},
        },
    }
}

proof fn lemma_items_context_kept(s: Session, ts: Seq<Type>)
    ensures
        print_items(s, ts).0.context == s.context,
    decreases ts,
{
    if ts.len() > 0 {
        let init = ts.subrange(0, ts.len() - 1);
        lemma_items_context_kept(s, init);
        lemma_context_kept(print_items(s, init).0, ts[ts.len() - 1]);
    }
}

proof fn lemma_keeps_trans(a: Map<Seq<char>, Seq<char>>, b: Map<Seq<char>, Seq<char>>, c: Map<Seq<char>, Seq<char>>)
    requires
        keeps(a, b),
        keeps(b, c),
    ensures
        keeps(a, c),
{
    assert forall|n: Seq<char>| #[trigger] a.contains_key(n) implies c.contains_key(n) && c[n] == a[n] by {
        assert(b.contains_key(n));
    }
}

/// Without a context: printing only adds names and adds modules for names
/// not printed before, and gives the document that any later fixed names and
/// records give.
proof fn lemma_print_fixed(s: Session, t: Type, names: Map<u64, Seq<char>>, printed: Map<Seq<char>, Seq<char>>)
    requires
        s.context is None,
        extends(print_type(s, t).0.names, names),
        keeps(print_type(s, t).0.printed, printed),
    ensures
        print_type(s, t).0.context is None,
        extends(s.names, print_type(s, t).0.names),
        keeps(s.printed, print_type(s, t).0.printed),
        print_type(s, t).1 == doc_fixed(names, printed, t),
    decreases t,
{
    let s9 = print_type(s, t).0;
    match t {
        Type::Named { name, module, args, .. } => {
            let s1 = named_head(s, name@, module@).0;
            assert(keeps(s.printed, s1.printed));
            assert(extends(s.names, s1.names));
            if args@.len() > 0 {
                lemma_items_fixed(s1, args@, names, printed);
                lemma_extends_trans(s.names, s1.names, s9.names);
                lemma_keeps_trans(s.printed, s1.printed, s9.printed);
            }
            lemma_keeps_trans(s.printed, s9.printed, printed);
            lemma_keeps_trans(s1.printed, s9.printed, printed);
            assert(s1.printed.contains_key(name@));
            assert(head_with(printed, name@, module@) == named_head(s, name@, module@).1);
        },
        Type::Fn { args, retrn } => {
            let s1 = if args@.len() == 0 { s } else { print_items(s, args@).0 };
            lemma_items_context_kept(s, args@);
            lemma_print_fixed(s1, *retrn, names, printed);
            if args@.len() > 0 {
                lemma_extends_trans(s1.names, s9.names, names);
                lemma_keeps_trans(s1.printed, s9.printed, printed);
                lemma_items_fixed(s, args@, names, printed);
                lemma_extends_trans(s.names, s1.names, s9.names);
                lemma_keeps_trans(s.printed, s1.printed, s9.printed);
            }
        },
        Type::Tuple { elems } => {
            if elems@.len() > 0 {
                lemma_items_fixed(s, elems@, names, printed);
            } else {
                assert(extends(s.names, s.names));
                assert(keeps(s.printed, s.printed));
            }
        },
        Type::Var { type_ } => match *type_ {
            TypeVar::Link { type_ } => lemma_print_fixed(s, *type_, names, printed),
            TypeVar::Unbound { id } => {
                assert(extends(s.names, s9.names));
                assert(s9.names.contains_key(id));
                assert(s9.names[id] == names[id]);
                assert(keeps(s.printed, s9.printed));
            },
            TypeVar::Generic { id } => {
                assert(extends(s.names, s9.names));
                assert(s9.names.contains_key(id));
                assert(s9.names[id] == names[id]);
                assert(keeps(s.printed, s9.printed));
            },
        },
    }
}

proof fn lemma_items_fixed(s: Session, ts: Seq<Type>, names: Map<u64, Seq<char>>, printed: Map<Seq<char>, Seq<char>>)
    requires
        s.context is None,
        extends(print_items(s, ts).0.names, names),
        keeps(print_items(s, ts).0.printed, printed),
    ensures
        print_items(s, ts).0.context is None,
        extends(s.names, print_items(s, ts).0.names),
        keeps(s.printed, print_items(s, ts).0.printed),
        print_items(s, ts).1 == items_fixed(names, printed, ts),
    decreases ts,
{
    if ts.len() == 0 {
        assert(extends(s.names, s.names));
        assert(keeps(s.printed, s.printed));
    } else {
        let init = ts.subrange(0, ts.len() - 1);
        let s1 = print_items(s, init).0;
        let s9 = print_items(s, ts).0;
        lemma_items_context_kept(s, init);
        lemma_print_fixed(s1, ts[ts.len() - 1], names, printed);
        lemma_extends_trans(s1.names, s9.names, names);
        lemma_keeps_trans(s1.printed, s9.printed, printed);
        lemma_items_fixed(s, init, names, printed);
        lemma_extends_trans(s.names, s1.names, s9.names);
        lemma_keeps_trans(s.printed, s1.printed, s9.printed);
    }
}

/// Every named type of `t` has its name recorded in `printed`.
pub open spec fn names_recorded(printed: Map<Seq<char>, Seq<char>>, t: Type) -> bool
    decreases t,
{
    match t {
        Type::Named { name, args, .. } => printed.contains_key(name@) && items_recorded(printed, args@),
        Type::Fn { args, retrn } => items_recorded(printed, args@) && names_recorded(printed, *retrn),
        Type::Tuple { elems } => items_recorded(printed, elems@),
        Type::Var { type_ } => match *type_ {
            TypeVar::Link { type_ } => names_recorded(printed, *type_),
            _ => true,
        },
    }
}

pub open spec fn items_recorded(printed: Map<Seq<char>, Seq<char>>, ts: Seq<Type>) -> bool
    decreases ts,
{
    if ts.len() == 0 {
        true
    } else {
        items_recorded(printed, ts.subrange(0, ts.len() - 1)) && names_recorded(printed, ts[ts.len() - 1])
    }
}

proof fn lemma_grow(a: Map<u64, Seq<char>>, b: Map<u64, Seq<char>>, p: Map<Seq<char>, Seq<char>>, q: Map<Seq<char>, Seq<char>>, t: Type)
    requires
        extends(a, b),
        keeps(p, q),
    ensures
        vars_named(a, t) ==> vars_named(b, t),
        names_recorded(p, t) ==> names_recorded(q, t),
    decreases t,
{
    match t {
        Type::Named { args, .. } => lemma_items_grow(a, b, p, q, args@),
        Type::Fn { args, retrn } => {
            lemma_items_grow(a, b, p, q, args@);
            lemma_grow(a, b, p, q, *retrn);
        },
        Type::Tuple { elems } => lemma_items_grow(a, b, p, q, elems@),
        Type::Var { type_ } => match *type_ {
            TypeVar::Link { type_ } => lemma_grow(a, b, p, q, *type_),
            TypeVar::Unbound { id } => {
                if a.contains_key(id) {
                    assert(b.contains_key(id));
                }
            },
            TypeVar::Generic { id } => {
                if a.contains_key(id) {
                    assert(b.contains_key(id));
                }
            },
        },
    }
}

proof fn lemma_items_grow(
    a: Map<u64, Seq<char>>,
    b: Map<u64, Seq<char>>,
    p: Map<Seq<char>, Seq<char>>,
    q: Map<Seq<char>, Seq<char>>,
    ts: Seq<Type>,
)
    requires
        extends(a, b),
        keeps(p, q),
    ensures
        items_named(a, ts) ==> items_named(b, ts),
        items_recorded(p, ts) ==> items_recorded(q, ts),
    decreases ts,
{
    if ts.len() > 0 {
        lemma_items_grow(a, b, p, q, ts.subrange(0, ts.len() - 1));
        lemma_grow(a, b, p, q, ts[ts.len() - 1]);
    }
}

/// After printing `t`, its variables are named and, without a context, its
/// named types recorded; names and records only grow.
proof fn lemma_after_print(s: Session, t: Type)
    ensures
        extends(s.names, print_type(s, t).0.names),
        keeps(s.printed, print_type(s, t).0.printed),
        vars_named(print_type(s, t).0.names, t),
        s.context is None ==> names_recorded(print_type(s, t).0.printed, t),
    decreases t,
{
    let s9 = print_type(s, t).0;
    match t {
        Type::Named { name, module, args, .. } => {
            let s1 = named_head(s, name@, module@).0;
            assert(extends(s.names, s1.names));
            assert(keeps(s.printed, s1.printed));
            lemma_items_after_print(s1, args@);
            lemma_extends_trans(s.names, s1.names, s9.names);
            lemma_keeps_trans(s.printed, s1.printed, s9.printed);
            if s.context is None {
                assert(s1.printed.contains_key(name@));
                assert(s9.printed.contains_key(name@));
            }
        },
        Type::Fn { args, retrn } => {
            lemma_items_after_print(s, args@);
            let s1 = if args@.len() == 0 { s } else { print_items(s, args@).0 };
            if args@.len() == 0 {
                assert(extends(s.names, s.names));
                assert(keeps(s.printed, s.printed));
            }
            lemma_items_context_kept(s, args@);
            lemma_after_print(s1, *retrn);
            lemma_items_grow(s1.names, s9.names, s1.printed, s9.printed, args@);
            lemma_extends_trans(s.names, s1.names, s9.names);
            lemma_keeps_trans(s.printed, s1.printed, s9.printed);
        },
        Type::Tuple { elems } => lemma_items_after_print(s, elems@),
        Type::Var { type_ } => match *type_ {
            TypeVar::Link { type_ } => lemma_after_print(s, *type_),
            TypeVar::Unbound { id } => {
                assert(extends(s.names, s9.names));
                assert(keeps(s.printed, s9.printed));
            },
            TypeVar::Generic { id } => {
                assert(extends(s.names, s9.names));
                assert(keeps(s.printed, s9.printed));
            },
        },
    }
}

proof fn lemma_items_after_print(s: Session, ts: Seq<Type>)
    ensures
        extends(s.names, print_items(s, ts).0.names),
        keeps(s.printed, print_items(s, ts).0.printed),
        items_named(print_items(s, ts).0.names, ts),
        s.context is None ==> items_recorded(print_items(s, ts).0.printed, ts),
    decreases ts,
{
    if ts.len() == 0 {
        assert(extends(s.names, s.names));
        assert(keeps(s.printed, s.printed));
    } else {
        let init = ts.subrange(0, ts.len() - 1);
        lemma_items_after_print(s, init);
        let s1 = print_items(s, init).0;
        let s9 = print_items(s, ts).0;
        lemma_items_context_kept(s, init);
        lemma_after_print(s1, ts[ts.len() - 1]);
        lemma_items_grow(s1.names, s9.names, s1.printed, s9.printed, init);
        lemma_extends_trans(s.names, s1.names, s9.names);
        lemma_keeps_trans(s.printed, s1.printed, s9.printed);
    }
}

/// Printing a type whose variables are named and, without a context, whose
/// named types are recorded leaves the session as it was.
proof fn lemma_settled(s: Session, t: Type)
    requires
        vars_named(s.names, t),
        s.context is Some || names_recorded(s.printed, t),
    ensures
        print_type(s, t).0 == s,
    decreases t,
{
    match t {
        Type::Named { name, module, args, .. } => {
            if s.context is None && !clashes(s, name@, module@) {
                assert(s.printed.contains_key(name@));
                assert(s.printed[name@] == module@);
                assert(s.printed.insert(name@, module@) =~= s.printed);
            }
            assert(named_head(s, name@, module@).0 == s);
            lemma_items_settled(s, args@);
        },
        Type::Fn { args, retrn } => {
            lemma_items_settled(s, args@);
            lemma_settled(s, *retrn);
        },
        Type::Tuple { elems } => lemma_items_settled(s, elems@),
        Type::Var { type_ } => match *type_ {
            TypeVar::Link { type_ } => lemma_settled(s, *type_),
            _ => {},
        },
    }
}

proof fn lemma_items_settled(s: Session, ts: Seq<Type>)
    requires
        items_named(s.names, ts),
        s.context is Some || items_recorded(s.printed, ts),
    ensures
        print_items(s, ts).0 == s,
    decreases ts,
{
    if ts.len() > 0 {
        lemma_items_settled(s, ts.subrange(0, ts.len() - 1));
        lemma_settled(s, ts[ts.len() - 1]);
    }
}

/// A second printing of a type, right after the first, leaves the session
/// as the first left it: no new names, same counter, same records.
pub proof fn lemma_second_print_keeps_session(s: Session, t: Type)
    ensures
        print_type(print_type(s, t).0, t).0 == print_type(s, t).0,
{
    lemma_after_print(s, t);
    lemma_context_kept(s, t);
    lemma_settled(print_type(s, t).0, t);
}

/// Without a context, printing the same type twice in one session gives the
/// same document, so the same text.
pub proof fn lemma_print_twice_without_context(s: Session, t: Type)
    requires
        s.context is None,
    ensures
        print_type(print_type(s, t).0, t).1 == print_type(s, t).1,
{
    let s1 = print_type(s, t).0;
    let s2 = print_type(s1, t).0;
    lemma_context_kept(s, t);
    assert(extends(s2.names, s2.names));
    assert(keeps(s2.printed, s2.printed));
    lemma_print_fixed(s1, t, s2.names, s2.printed);
    lemma_print_fixed(s, t, s2.names, s2.printed);
}

/// A session with nothing named or printed and no context.
pub open spec fn empty_session() -> Session {
    Session { names: Map::empty(), uid: 0, printed: Map::empty(), context: None }
}

/// A type rendered as text from the start of a line, in a fresh session.
pub fn pretty_print(type_: Type) -> (r: String)
    requires
        2 * type_depth(type_) <= usize::MAX,
    ensures
        r@ == pretty(
            Doc::Nest(0, Box::new(cat(text(spaces(0)), print_type(empty_session(), type_).1))),
            LINE_WIDTH as nat,
        ),
{
    let mut printer = Printer::new();
    assert(printer.session() == empty_session()) by {
        assert(printer.session().names =~= Map::empty());
        assert(printer.session().printed =~= Map::empty());
    }
    printer.pretty_print(&type_, 0)
}

/// A printing session: names given to variables, and names printed so far.
#[derive(Debug)]
pub struct Printer {
    names: im::HashMap<u64, String>,
    uid: u64,
    /// For each type name printed without a qualifier, its module.
    printed_types: im::HashMap<String, String>,
    context: Option<ImportContext>,
}

fn qualify_type_name(module: &String, name: &String) -> (r: Document)
    ensures
        r.model() == text(qualify(module@, name@)),
{
    let mut s = module.clone();
    proof {
        reveal_strlit(".");
    }
    s.append(".");
    s.append(name.as_str());
    assert(s@ =~= qualify(module@, name@));
    Document::Text(s)
}

fn wrap_args_doc(items: Document) -> (r: Document)
    ensures
        r.model() == wrap_args(items.model()),
{
    proof {
        reveal_strlit("");
        reveal_strlit(",");
        assert(""@ =~= Seq::<char>::empty());
        assert(","@ =~= seq![',']);
    }
    Document::Group(
        Box::new(
            cat_doc(Document::Nest(INDENT, Box::new(cat_doc(break_doc("", ""), items))), break_doc(",", "")),
        ),
    )
}

/// Appends the one-line text of `d` to `out`.
fn flat_into(d: &Document, out: &mut String)
    ensures
        final(out)@ == old(out)@ + flat(d.model()),
    decreases d,
{
    match d {
        Document::Nil => {},
        Document::Text(s) => out.append(s.as_str()),
        Document::Cat(a, b) => {
            flat_into(a, out);
            flat_into(b, out);
            assert(out@ =~= old(out)@ + flat(d.model()));
        },
        Document::Break { broken, unbroken } => out.append(unbroken.as_str()),
        Document::Nest(i, x) => flat_into(x, out),
        Document::Group(x) => flat_into(x, out),
    }
}

/// The nesting depth of a type, following links.
pub open spec fn type_depth(t: Type) -> nat
    decreases t,
{
    match t {
        Type::Named { args, .. } => 1 + items_depth(args@),
        Type::Fn { args, retrn } => {
            let a = items_depth(args@);
            let r = type_depth(*retrn);
            1 + if a >= r { a } else { r }
        },
        Type::Tuple { elems } => 1 + items_depth(elems@),
        Type::Var { type_ } => match *type_ {
            TypeVar::Link { type_ } => type_depth(*type_),
            _ => 0,
        },
    }
}

/// The greatest nesting depth among some types.
pub open spec fn items_depth(ts: Seq<Type>) -> nat
    decreases ts,
{
    if ts.len() == 0 {
        0
    } else {
        let a = items_depth(ts.subrange(0, ts.len() - 1));
        let b = type_depth(ts[ts.len() - 1]);
        if a >= b { a } else { b }
    }
}

proof fn lemma_print_nest(s: Session, t: Type)
    ensures
        nest_depth(print_type(s, t).1) <= 2 * type_depth(t),
    decreases t,
{
    reveal_with_fuel(nest_depth, 4);
    match t {
        Type::Named { name, module, args, .. } => {
            let (s1, head) = named_head(s, name@, module@);
            lemma_items_nest(s1, args@);
            let items = print_items(s1, args@).1;
            lemma_wrap_nest(items);
            assert(nest_depth(cat(text(head), text(seq!['(']))) == 0);
            assert(nest_depth(cat(wrap_args(items), text(seq![')']))) == nest_depth(wrap_args(items)));
        },
        Type::Fn { args, retrn } => {
            lemma_items_nest(s, args@);
            let (s1, a) = if args@.len() == 0 {
                (s, Doc::Nil)
            } else {
                (print_items(s, args@).0, wrap_args(print_items(s, args@).1))
            };
            if args@.len() > 0 {
                lemma_wrap_nest(print_items(s, args@).1);
            }
            lemma_print_nest(s1, *retrn);
            let r = print_type(s1, *retrn).1;
            let left = cat(cat(text("fn("@), a), text(") ->"@));
            assert(nest_depth(cat(text("fn("@), a)) == nest_depth(a));
            assert(nest_depth(left) == nest_depth(a));
            let tail = Doc::Group(
                Box::new(Doc::Nest(INDENT as nat, Box::new(cat(Doc::Break { broken: Seq::empty(), unbroken: seq![' '] }, r)))),
            );
            assert(nest_depth(cat(Doc::Break { broken: Seq::empty(), unbroken: seq![' '] }, r)) == nest_depth(r));
            assert(nest_depth(tail) == 2 + nest_depth(r));
        },
        Type::Tuple { elems } => {
            lemma_items_nest(s, elems@);
            if elems@.len() > 0 {
                lemma_wrap_nest(print_items(s, elems@).1);
            }
            let a = print_args(s, elems@).1;
            assert(nest_depth(cat(text("#("@), a)) == nest_depth(a));
        },
        Type::Var { type_ } => match *type_ {
            TypeVar::Link { type_ } => {
                lemma_print_nest(s, *type_);
            },
            _ => {},
        },
    }
}

proof fn lemma_items_nest(s: Session, ts: Seq<Type>)
    ensures
        nest_depth(print_items(s, ts).1) <= 2 * items_depth(ts),
    decreases ts,
{
    reveal_with_fuel(nest_depth, 4);
    if ts.len() > 0 {
        let init = ts.subrange(0, ts.len() - 1);
        lemma_items_nest(s, init);
        let (s1, di) = print_items(s, init);
        lemma_print_nest(s1, ts[ts.len() - 1]);
        let d = print_type(s1, ts[ts.len() - 1]).1;
        let item = Doc::Group(Box::new(d));
        assert(nest_depth(item) == nest_depth(d));
        assert(nest_depth(cat(comma_break(), item)) == nest_depth(d));
    }
}

proof fn lemma_wrap_nest(items: Doc)
    ensures
        nest_depth(wrap_args(items)) == 2 + nest_depth(items),
{
    reveal_with_fuel(nest_depth, 4);
    let b = Doc::Break { broken: Seq::<char>::empty(), unbroken: Seq::<char>::empty() };
    assert(nest_depth(cat(b, items)) == nest_depth(items));
    let n = Doc::Nest(INDENT as nat, Box::new(cat(b, items)));
    assert(nest_depth(n) == 2 + nest_depth(items));
    assert(nest_depth(cat(n, Doc::Break { broken: seq![','], unbroken: Seq::empty() })) == nest_depth(n));
}

fn lit(s: &str) -> (r: Document)
    ensures
        r.model() == text(s@),
{
    Document::Text(String::from_str(s))
}

fn cat_doc(a: Document, b: Document) -> (r: Document)
    ensures
        r.model() == cat(a.model(), b.model()),
{
    Document::Cat(Box::new(a), Box::new(b))
}

fn break_doc(broken: &str, unbroken: &str) -> (r: Document)
    ensures
        r.model() == (Doc::Break { broken: broken@, unbroken: unbroken@ }),
{
    Document::Break { broken: String::from_str(broken), unbroken: String::from_str(unbroken) }
}

fn lookup_import<'a>(imports: &'a Vec<Import>, module: &String) -> (r: Option<&'a Import>)
    ensures
        r is None <==> find_import(imports_view(imports@), module@) is None,
        r matches Some(i) ==> find_import(imports_view(imports@), module@) == Some(i.view()),
{
    let ghost all = imports_view(imports@);
    let mut k: usize = 0;
    assert(all.subrange(0, all.len() as int) =~= all);
    while k < imports.len()
        invariant
            k <= imports.len(),
            all == imports_view(imports@),
            find_import(all, module@) == find_import(all.subrange(k as int, all.len() as int), module@),
        decreases imports.len() - k,
    {
        let ghost rest = all.subrange(k as int, all.len() as int);
        assert(rest.drop_first() =~= all.subrange(k + 1, all.len() as int));
        if imports[k].module == *module {
            return Some(&imports[k]);
        }
        k = k + 1;
    }
    None
}

fn lookup_unqualified<'a>(us: &'a Vec<UnqualifiedImport>, name: &String) -> (r: Option<&'a UnqualifiedImport>)
    ensures
        r is None <==> find_unqualified(us@.map_values(|u: UnqualifiedImport| u.view()), name@) is None,
        r matches Some(u) ==> find_unqualified(us@.map_values(|u: UnqualifiedImport| u.view()), name@) == Some(u.view()),
{
    let ghost all = us@.map_values(|u: UnqualifiedImport| u.view());
    let mut k: usize = 0;
    assert(all.subrange(0, all.len() as int) =~= all);
    while k < us.len()
        invariant
            k <= us.len(),
            all == us@.map_values(|u: UnqualifiedImport| u.view()),
            find_unqualified(all, name@) == find_unqualified(all.subrange(k as int, all.len() as int), name@),
        decreases us.len() - k,
    {
        let ghost rest = all.subrange(k as int, all.len() as int);
        assert(rest.drop_first() =~= all.subrange(k + 1, all.len() as int));
        if us[k].name == *name {
            return Some(&us[k]);
        }
        k = k + 1;
    }
    None
}

fn clone_opt(o: &Option<String>) -> (r: Option<String>)
    ensures
        opt_view(r) == opt_view(*o),
{
    match o {
        Some(s) => Some(s.clone()),
        None => None,
    }
}

/// How the type `name` of `module` is written inside the context's module.
fn context_name_doc(ctx: &ImportContext, name: &String, module: &String) -> (r: Document)
    ensures
        r.model() == text(context_name(ctx.view(), name@, module@)),
{
    proof {
        reveal_strlit("gleam");
    }
    if *module == String::from_str("gleam") || ctx.module == *module {
        return Document::Text(name.clone());
    }
    match lookup_import(&ctx.imports, module) {
        Some(i) => match lookup_unqualified(&i.unqualified_types, name) {
            Some(u) => match &u.as_name {
                Some(local) => Document::Text(local.clone()),
                None => Document::Text(name.clone()),
            },
            None => match &i.renaming {
                Some(alias) => qualify_type_name(alias, name),
                None => qualify_type_name(module, name),
            },
        },
        None => qualify_type_name(module, name),
    }
}

impl Printer {
    /// The state of this session.
    pub closed spec fn session(&self) -> Session {
        Session {
            names: id_names(self.names),
            uid: self.uid,
            printed: name_modules(self.printed_types),
            context: match self.context {
                Some(c) => Some(c.view()),
                None => None,
            },
        }
    }

    /// A fresh session: no names given, nothing printed, no context.
    pub fn new() -> (r: Printer)
        ensures
            r.session().names.dom().is_empty(),
            r.session().uid == 0,
            r.session().printed.dom().is_empty(),
            r.session().context is None,
    {
        Printer { names: new_id_names(), uid: 0, printed_types: new_name_modules(), context: None }
    }

    /// Qualifies names from here on as seen from `module` with `imports`.
    pub fn with_imports_context(&mut self, module: String, imports: Vec<Import>)
        ensures
            final(self).session() == (Session {
                context: Some(ContextView { module: module@, imports: imports_view(imports@) }),
                ..old(self).session()
            }),
    {
        self.context = Some(ImportContext { module, imports });
    }

    /// Gives variables the names chosen beforehand.
    pub fn with_names(&mut self, names: im::HashMap<u64, String>)
        ensures
            final(self).session() == (Session { names: id_names(names), ..old(self).session() }),
    {
        self.names = names;
    }

    fn name_clashes_if_unqualified(&self, name: &String, module: &String) -> (r: bool)
        ensures
            r == clashes(self.session(), name@, module@),
    {
        match get_name_module(&self.printed_types, name) {
            None => false,
            Some(previous) => previous != *module,
        }
    }

    /// The name for the next variable seen, counting it.
    pub fn next_letter(&mut self) -> (r: String)
        ensures
            r@ == letter_name(old(self).session().uid as nat),
            final(self).session() == (Session { uid: next_uid(old(self).session().uid), ..old(self).session() }),
    {
        let r = letter_text(self.uid);
        self.uid = self.uid.saturating_add(1);
        r
    }

    /// Renders a type as text laid out within the line width, every line
    /// after the first indented by `initial_indent`, the first preceded by it.
    pub fn pretty_print(&mut self, type_: &Type, initial_indent: usize) -> (r: String)
        requires
            initial_indent + 2 * type_depth(*type_) <= usize::MAX,
        ensures
            ({
                let (s, d) = print_type(old(self).session(), *type_);
                &&& final(self).session() == s
                &&& r@ == pretty(
                    Doc::Nest(initial_indent as nat, Box::new(cat(text(spaces(initial_indent as nat)), d))),
                    LINE_WIDTH as nat,
                )
            }),
    {
        let mut buffer = String::new();
        let mut k: usize = 0;
        while k < initial_indent
            invariant
                k <= initial_indent,
                buffer@ == spaces(k as nat),
            decreases initial_indent - k,
        {
            proof {
                reveal_strlit(" ");
            }
            buffer.append(" ");
            k = k + 1;
            assert(buffer@ =~= spaces(k as nat));
        }
        let doc = self.print(type_);
        proof {
            lemma_print_nest(old(self).session(), *type_);
        }
        let full = Document::Nest(initial_indent, Box::new(cat_doc(Document::Text(buffer), doc)));
        proof {
            reveal_with_fuel(nest_depth, 3);
        }
        full.to_pretty_string(LINE_WIDTH)
    }

    /// Renders a type as text on one line.
    pub fn print_flat(&mut self, type_: &Type) -> (r: String)
        ensures
            ({
                let (s, d) = print_type(old(self).session(), *type_);
                final(self).session() == s && r@ == flat(d)
            }),
    {
        let doc = self.print(type_);
        let mut out = String::new();
        flat_into(&doc, &mut out);
        assert(out@ =~= flat(doc.model()));
        out
    }

    /// The document for a type.
    pub fn print(&mut self, type_: &Type) -> (r: Document)
        ensures
            (final(self).session(), r.model()) == print_type(old(self).session(), *type_),
        decreases type_,
    {
        proof {
            reveal_strlit("(");
            reveal_strlit(")");
            reveal_strlit(" ");
            reveal_strlit("");
            assert("("@ =~= seq!['(']);
            assert(")"@ =~= seq![')']);
            assert(" "@ =~= seq![' ']);
            assert(""@ =~= Seq::<char>::empty());
        }
        match type_ {
            Type::Named { name, module, args, .. } => {
                let head = self.named_head_doc(name, module);
                if args.len() == 0 {
                    head
                } else {
                    let a = self.args_to_gleam_doc(args);
                    cat_doc(cat_doc(head, lit("(")), cat_doc(a, lit(")")))
                }
            },
            Type::Fn { args, retrn } => {
                let a = self.args_to_gleam_doc(args);
                let r = self.print(retrn);
                let b = break_doc("", " ");
                let ghost bm = b.model();
                let ghost rm = r.model();
                let nest = Document::Nest(INDENT, Box::new(cat_doc(b, r)));
                assert(nest.model() == Doc::Nest(INDENT as nat, Box::new(cat(bm, rm))));
                let tail = Document::Group(Box::new(nest));
                cat_doc(cat_doc(cat_doc(lit("fn("), a), lit(") ->")), tail)
            },
            Type::Tuple { elems } => {
                let a = self.args_to_gleam_doc(elems);
                cat_doc(cat_doc(lit("#("), a), lit(")"))
            },
            Type::Var { type_ } => self.type_var_doc(type_),
        }
    }

    fn type_var_doc(&mut self, type_: &TypeVar) -> (r: Document)
        ensures
            (final(self).session(), r.model()) == print_type(
                old(self).session(),
                Type::Var { type_: Box::new(*type_) },
            ),
        decreases type_,
    {
        match type_ {
            TypeVar::Link { type_ } => self.print(type_),
            TypeVar::Unbound { id } => self.generic_type_var(*id),
            TypeVar::Generic { id } => self.generic_type_var(*id),
        }
    }

    /// An argument list: nothing when `args` is empty.
    fn args_to_gleam_doc(&mut self, args: &Vec<Type>) -> (r: Document)
        ensures
            (final(self).session(), r.model()) == print_args(old(self).session(), args@),
        decreases args,
    {
        if args.len() == 0 {
            return Document::Nil;
        }
        let mut acc = Document::Nil;
        let mut k: usize = 0;
        assert(args@.subrange(0, 0) =~= Seq::<Type>::empty());
        while k < args.len()
            invariant
                k <= args.len(),
                (self.session(), acc.model()) == print_items(old(self).session(), args@.subrange(0, k as int)),
            decreases args.len() - k,
        {
            let ghost sub = args@.subrange(0, k + 1);
            assert(sub.subrange(0, k as int) =~= args@.subrange(0, k as int));
            let d = self.print(&args[k]);
            let item = Document::Group(Box::new(d));
            acc = if k == 0 {
                item
            } else {
                proof {
                    reveal_strlit(",");
                    reveal_strlit(", ");
                    assert(","@ =~= seq![',']);
                    assert(", "@ =~= seq![',', ' ']);
                }
                cat_doc(acc, cat_doc(break_doc(",", ", "), item))
            };
            k = k + 1;
        }
        assert(args@.subrange(0, args.len() as int) =~= args@);
        wrap_args_doc(acc)
    }

    /// The name printed for the type `name` of `module`.
    fn named_head_doc(&mut self, name: &String, module: &String) -> (r: Document)
        ensures
            (final(self).session(), r.model()) == ({
                let (s, h) = named_head(old(self).session(), name@, module@);
                (s, text(h))
            }),
    {
        if let Some(ctx) = &self.context {
            return context_name_doc(ctx, name, module);
        }
        if self.name_clashes_if_unqualified(name, module) {
            qualify_type_name(module, name)
        } else {
            insert_name_module(&mut self.printed_types, name.clone(), module.clone());
            Document::Text(name.clone())
        }
    }

    /// The name of the variable `id`, given on first sight.
    pub fn generic_type_var(&mut self, id: u64) -> (r: Document)
        ensures
            (final(self).session(), r.model()) == ({
                let (s, n) = var_name(old(self).session(), id);
                (s, text(n))
            }),
    {
        match get_id_name(&self.names, id) {
            Some(n) => Document::Text(n),
            None => {
                let n = self.next_letter();
                insert_id_name(&mut self.names, id, n.clone());
                Document::Text(n)
            },
        }
    }
}

} // verus!
