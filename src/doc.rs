use vstd::prelude::*;
use vstd::string::StringExecFns;
use vstd::string::StrSliceExecFns;

verus! {

/// The mathematical content of a layout document.
pub enum Doc {
    Nil,
    Text(Seq<char>),
    Cat(Box<Doc>, Box<Doc>),
    /// A place where a line may break: `unbroken` when its group stays on one
    /// line, else `broken` followed by a new line and the indentation.
    Break { broken: Seq<char>, unbroken: Seq<char> },
    Nest(nat, Box<Doc>),
    /// A unit that is laid out on one line if it fits, else broken.
    Group(Box<Doc>),
}

/// A layout document.
#[derive(Debug)]
pub enum Document {
    Nil,
    Text(String),
    Cat(Box<Document>, Box<Document>),
    Break { broken: String, unbroken: String },
    Nest(usize, Box<Document>),
    Group(Box<Document>),
}

impl Document {
    pub open spec fn model(&self) -> Doc
        decreases self,
    {
        match self {
            Document::Nil => Doc::Nil,
            Document::Text(s) => Doc::Text(s@),
            Document::Cat(a, b) => Doc::Cat(Box::new(a.model()), Box::new(b.model())),
            Document::Break { broken, unbroken } => Doc::Break { broken: broken@, unbroken: unbroken@ },
            Document::Nest(i, x) => Doc::Nest(*i as nat, Box::new(x.model())),
            Document::Group(x) => Doc::Group(Box::new(x.model())),
        }
    }
}

/// The text of a document laid out on one line.
pub open spec fn flat(d: Doc) -> Seq<char>
    decreases d,
{
    match d {
        Doc::Nil => Seq::empty(),
        Doc::Text(s) => s,
        Doc::Cat(a, b) => flat(*a) + flat(*b),
        Doc::Break { broken, unbroken } => unbroken,
        Doc::Nest(i, x) => flat(*x),
        Doc::Group(x) => flat(*x),
    }
}

/// The deepest indentation that the nests of a document add up to.
pub open spec fn nest_depth(d: Doc) -> nat
    decreases d,
{
    match d {
        Doc::Cat(a, b) => {
            let x = nest_depth(*a);
            let y = nest_depth(*b);
            if x >= y { x } else { y }
        },
        Doc::Nest(i, x) => i + nest_depth(*x),
        Doc::Group(x) => nest_depth(*x),
        _ => 0,
    }
}

pub open spec fn spaces(n: nat) -> Seq<char> {
    Seq::new(n, |i: int| ' ')
}

/// Lays out `d` at column `col` with the current indentation `indent`, in
/// one-line mode when `one_line` holds: the text produced and the column
/// reached. A group goes on one line exactly when its one-line text, started
/// at the current column, ends within `width`.
pub open spec fn layout(d: Doc, width: nat, indent: nat, one_line: bool, col: nat) -> (Seq<char>, nat)
    decreases d,
{
    match d {
        Doc::Nil => (Seq::empty(), col),
        Doc::Text(s) => (s, col + s.len()),
        Doc::Cat(a, b) => {
            let (ta, ca) = layout(*a, width, indent, one_line, col);
            let (tb, cb) = layout(*b, width, indent, one_line, ca);
            (ta + tb, cb)
        },
        Doc::Break { broken, unbroken } => if one_line {
            (unbroken, col + unbroken.len())
        } else {
            (broken + seq!['\n'] + spaces(indent), indent)
        },
        Doc::Nest(i, x) => layout(*x, width, indent + i, one_line, col),
        Doc::Group(x) => if one_line || col + flat(*x).len() <= width {
            layout(*x, width, indent, true, col)
        } else {
            layout(*x, width, indent, false, col)
        },
    }
}

/// The text of `d` laid out from the start of a line within `width` columns.
pub open spec fn pretty(d: Doc, width: nat) -> Seq<char> {
    layout(d, width, 0, false, 0).0
}

pub open spec fn cap(c: nat, width: nat) -> nat {
    if c <= width { c } else { width + 1 }
}

/// Past the width, the exact column no longer matters.
proof fn lemma_layout_cap(d: Doc, width: nat, indent: nat, one_line: bool, col: nat)
    ensures
        layout(d, width, indent, one_line, col).0 == layout(d, width, indent, one_line, cap(col, width)).0,
        cap(layout(d, width, indent, one_line, col).1, width) == cap(
            layout(d, width, indent, one_line, cap(col, width)).1,
            width,
        ),
    decreases d,
{
    match d {
        Doc::Cat(a, b) => {
            let ca = layout(*a, width, indent, one_line, col).1;
            let ca2 = layout(*a, width, indent, one_line, cap(col, width)).1;
            lemma_layout_cap(*a, width, indent, one_line, col);
            lemma_layout_cap(*b, width, indent, one_line, ca);
            lemma_layout_cap(*b, width, indent, one_line, ca2);
        },
        Doc::Nest(i, x) => {
            lemma_layout_cap(*x, width, indent + i, one_line, col);
        },
        Doc::Group(x) => {
            lemma_layout_cap(*x, width, indent, true, col);
            lemma_layout_cap(*x, width, indent, false, col);
        },
        _ => {},
    }
}

/// Every break of the document lies inside a group.
pub open spec fn grouped(d: Doc) -> bool
    decreases d,
{
    match d {
        Doc::Break { .. } => false,
        Doc::Cat(a, b) => grouped(*a) && grouped(*b),
        Doc::Nest(i, x) => grouped(*x),
        _ => true,
    }
}

/// In one-line mode a document is its one-line text.
pub proof fn lemma_one_line(d: Doc, width: nat, indent: nat, col: nat)
    ensures
        layout(d, width, indent, true, col) == (flat(d), col + flat(d).len()),
    decreases d,
{
    match d {
        Doc::Cat(a, b) => {
            lemma_one_line(*a, width, indent, col);
            lemma_one_line(*b, width, indent, col + flat(*a).len());
        },
        Doc::Nest(i, x) => lemma_one_line(*x, width, indent + i, col),
        Doc::Group(x) => lemma_one_line(*x, width, indent, col),
        _ => {},
    }
}

/// A document whose breaks all lie in groups, and whose one-line text fits
/// from the current column, is laid out on one line.
pub proof fn lemma_fits_stays_flat(d: Doc, width: nat, indent: nat, col: nat)
    requires
        grouped(d),
        col + flat(d).len() <= width,
    ensures
        layout(d, width, indent, false, col) == (flat(d), col + flat(d).len()),
    decreases d,
{
    match d {
        Doc::Cat(a, b) => {
            lemma_fits_stays_flat(*a, width, indent, col);
            lemma_fits_stays_flat(*b, width, indent, col + flat(*a).len());
        },
        Doc::Nest(i, x) => lemma_fits_stays_flat(*x, width, indent + i, col),
        Doc::Group(x) => lemma_one_line(*x, width, indent, col),
        _ => {},
    }
}

/// Whether the one-line text of `d` fits in `budget` columns, and what is
/// left of them if so.
fn fits_flat(d: &Document, budget: usize) -> (r: Option<usize>)
    ensures
        r == (if flat(d.model()).len() <= budget {
            Some((budget - flat(d.model()).len()) as usize)
        } else {
            None::<usize>
        }),
    decreases d,
{
    match d {
        Document::Nil => Some(budget),
        Document::Text(s) => {
            let n = s.as_str().unicode_len();
            if n <= budget {
                Some(budget - n)
            } else {
                None
            }
        },
        Document::Cat(a, b) => {
            match fits_flat(a, budget) {
                None => None,
                Some(rest) => fits_flat(b, rest),
            }
        },
        Document::Break { broken, unbroken } => {
            let n = unbroken.as_str().unicode_len();
            if n <= budget {
                Some(budget - n)
            } else {
                None
            }
        },
        Document::Nest(i, x) => fits_flat(x, budget),
        Document::Group(x) => fits_flat(x, budget),
    }
}

fn push_spaces(out: &mut String, n: usize)
    ensures
        final(out)@ == old(out)@ + spaces(n as nat),
{
    let mut k: usize = 0;
    while k < n
        invariant
            k <= n,
            out@ == old(out)@ + spaces(k as nat),
        decreases n - k,
    {
        proof {
            reveal_strlit(" ");
        }
        out.append(" ");
        k = k + 1;
        assert(out@ =~= old(out)@ + spaces(k as nat));
    }
}

/// Appends the layout of `d` to `out` and returns the column reached, or
/// `width + 1` for any column past `width`.
fn layout_into(d: &Document, width: usize, indent: usize, one_line: bool, col: usize, out: &mut String) -> (c: usize)
    requires
        width < usize::MAX,
        col <= width + 1,
        indent + nest_depth(d.model()) <= usize::MAX,
    ensures
        final(out)@ == old(out)@ + layout(d.model(), width as nat, indent as nat, one_line, col as nat).0,
        c == cap(layout(d.model(), width as nat, indent as nat, one_line, col as nat).1, width as nat),
    decreases d,
{
    match d {
        Document::Nil => col,
        Document::Text(s) => {
            out.append(s.as_str());
            let n = s.as_str().unicode_len();
            if n > width + 1 - col {
                width + 1
            } else {
                let c = col + n;
                if c > width { width + 1 } else { c }
            }
        },
        Document::Cat(a, b) => {
            let ghost wid = width as nat;
            let ghost ca = layout(a.model(), wid, indent as nat, one_line, col as nat).1;
            let c1 = layout_into(a, width, indent, one_line, col, out);
            proof {
                lemma_layout_cap(b.model(), wid, indent as nat, one_line, ca);
            }
            let c2 = layout_into(b, width, indent, one_line, c1, out);
            assert(out@ =~= old(out)@ + layout(d.model(), wid, indent as nat, one_line, col as nat).0);
            c2
        },
        Document::Break { broken, unbroken } => {
            if one_line {
                out.append(unbroken.as_str());
                let n = unbroken.as_str().unicode_len();
                if n > width + 1 - col {
                    width + 1
                } else {
                    let c = col + n;
                    if c > width { width + 1 } else { c }
                }
            } else {
                out.append(broken.as_str());
                proof {
                    reveal_strlit("\n");
                }
                out.append("\n");
                push_spaces(out, indent);
                assert(out@ =~= old(out)@ + (broken@ + seq!['\n'] + spaces(indent as nat)));
                if indent > width { width + 1 } else { indent }
            }
        },
        Document::Nest(i, x) => layout_into(x, width, indent + *i, one_line, col, out),
        Document::Group(x) => {
            if one_line {
                layout_into(x, width, indent, true, col, out)
            } else {
                let fits = if col > width {
                    false
                } else {
                    fits_flat(x, width - col).is_some()
                };
                if fits {
                    layout_into(x, width, indent, true, col, out)
                } else {
                    layout_into(x, width, indent, false, col, out)
                }
            }
        },
    }
}

impl Document {
    /// The text of this document laid out within `width` columns.
    pub fn to_pretty_string(&self, width: usize) -> (r: String)
        requires
            width < usize::MAX,
            nest_depth(self.model()) <= usize::MAX,
        ensures
            r@ == pretty(self.model(), width as nat),
    {
        let mut out = String::new();
        let _ = layout_into(self, width, 0, false, 0, &mut out);
        assert(out@ =~= pretty(self.model(), width as nat));
        out
    }
}

} // verus!
