use vstd::prelude::*;

verus! {

/// Who may refer to a named type from outside its module.
#[derive(Clone, Copy, Debug, PartialEq, Eq)]
pub enum Publicity {
    Public,
    Internal,
    Private,
}

/// A type as the type checker leaves it.
#[derive(Debug)]
pub enum Type {
    /// A type constructor applied to its arguments.
    Named { name: String, module: String, package: String, publicity: Publicity, args: Vec<Type> },
    /// A function type.
    Fn { args: Vec<Type>, retrn: Box<Type> },
    /// A tuple type.
    Tuple { elems: Vec<Type> },
    /// An inference variable.
    Var { type_: Box<TypeVar> },
}

/// What an inference variable stands for once inference is over.
#[derive(Debug)]
pub enum TypeVar {
    /// Resolved to another type.
    Link { type_: Box<Type> },
    /// Never resolved.
    Unbound { id: u64 },
    /// Generalised.
    Generic { id: u64 },
}

} // verus!
