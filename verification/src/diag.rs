//! What can go wrong while compiling, and what is only worth a warning.

use crate::ident::Ident;
use crate::parsing::Span;
use vstd::prelude::*;

verus! {

/// A language feature that the grammar accepts and the compiler does not lower.
#[derive(Clone, Copy, Debug, PartialEq, Eq, Structural)]
pub enum Feature {
    /// `if`, `while`, `do`, `for`, `repeat` and `loop` statements.
    ControlFlow,
    /// Taking the address of a variable, or reading through a pointer.
    Pointers,
    /// A string literal in an expression.
    StringLiteral,
    /// Verbatim assembly at the top level.
    RawAssembly,
    /// An include directive that reached the compiler unexpanded.
    Include,
    /// A variable whose type is a structure.
    StructVariable,
}

/// The reason why a declaration was rejected.
#[derive(Clone, Copy, Debug, PartialEq, Eq, Structural)]
pub enum ErrorKind {
    /// A `use` statement names an environment that has not been declared.
    UnknownEnvironment(Ident),
    /// A script names an environment that has not been declared before it.
    MissingEnvironment(Ident),
    /// No type of this name exists.
    UnknownType(Ident),
    /// No variable of this name has been declared in the function.
    UnknownVariable(Ident),
    /// The environment defines nothing under this name.
    UnknownDefinition(Ident),
    /// The environment lacks the opcode that an operator on this type needs.
    MissingOpcode(Mnemonic, crate::types::Type),
    /// The handle does not belong to the interner in use.
    UnknownIdent(Ident),
    /// An environment of this name exists already.
    DuplicateEnvironment(Ident),
    /// The environment defines this name already.
    DuplicateFunction(Ident),
    /// The definition `name` asks for opcode `id`, which `other` holds.
    DuplicateOpcode { name: Ident, id: u8, other: Ident },
    /// A type of this name exists already.
    DuplicateType(Ident),
    /// The environment sets its pool size a second time.
    DuplicatePool,
    /// A call passes more arguments than the callee takes.
    TooManyArguments,
    /// A call passes fewer arguments than the callee takes.
    NotEnoughArguments,
    /// The function's variables and temporaries need more than 256 bytes.
    OutOfVariableSpace,
    /// The environment would need an opcode above 255.
    BytecodeLimit(Ident),
    /// The pool size is above the largest one allowed.
    PoolTooLarge(i64),
    /// The pool size is below zero.
    NegativePool,
    /// The pool size is not a constant.
    PoolNotConstant,
    /// The interner has no handle left for a new name.
    TooManyIdentifiers,
    /// A definition declares more than one return parameter.
    MultipleReturns,
    /// An alias chain, or an operator, ends at a macro.
    MacroTarget(Ident),
    /// An alias chain does not end.
    AliasCycle(Ident),
    /// The arguments of an alias call the alias itself, directly or through
    /// the arguments of other aliases.
    AliasArgumentCycle,
    /// A typedef chain does not end.
    TypeCycle(Ident),
    /// An alias passes on an argument that it does not have.
    ArgumentIdTooLarge(usize),
    /// An alias passes on argument number zero; arguments count from one.
    ArgumentIdZero,
    /// A value is needed from a call that returns none.
    NoReturnValue,
    /// The construct is not lowered yet.
    NotYetSupported(Feature),
}

/// The operations that the compiler itself asks of an environment.
#[derive(Clone, Copy, Debug, PartialEq, Eq, Structural)]
pub enum Mnemonic {
    Put,
    Mov,
    Mul,
    Div,
    Mod,
    Add,
    Sub,
    Shl,
    Shr,
    Band,
    Bxor,
    Bor,
    Equ,
    Nequ,
    Lt,
    Gt,
    Lte,
    Gte,
    Land,
    Lor,
}

/// A rejected declaration: the reason, and the statement at fault where one
/// is known.
#[derive(Clone, Copy, Debug, PartialEq, Eq)]
pub struct Diagnostic {
    pub kind: ErrorKind,
    pub span: Option<Span>,
}

/// Something questionable that does not stop the compilation.
#[derive(Clone, Copy, Debug, PartialEq, Eq, Structural)]
pub enum Warning {
    /// A `use` statement replaced an earlier definition of this name.
    DuplicateDefinition(Ident),
    /// An argument's type differs from the type that the callee declares.
    ArgumentTypeMismatch,
}

} // verus!
