//! The wording of diagnostics and warnings.

use crate::compiler::opcode_name_string;
use crate::diag::{Diagnostic, ErrorKind, Feature, Warning};
use crate::ident::{name_of, Ident, Interner};
use crate::lower::opcode_name;
use crate::text::{decimal, signed_decimal, spec_decimal, spec_signed_decimal};
use vstd::prelude::*;
use vstd::string::*;

verus! {

/// The way a name is shown: its string, or a question mark for a handle that
/// the interner does not know.
pub open spec fn spec_shown(names: Seq<Seq<char>>, id: Ident) -> Seq<char> {
    match name_of(names, id) {
        Some(s) => s,
        None => "?"@,
    }
}

/// What a feature is called in a message.
pub open spec fn spec_feature_text(feature: Feature) -> Seq<char> {
    match feature {
        Feature::ControlFlow => "Control flow statements"@,
        Feature::Pointers => "Pointers"@,
        Feature::StringLiteral => "String literals"@,
        Feature::RawAssembly => "Raw assembly blocks"@,
        Feature::Include => "Include directives"@,
        Feature::StructVariable => "Structure variables"@,
    }
}

/// The message of an error.
pub open spec fn spec_message(names: Seq<Seq<char>>, kind: ErrorKind) -> Seq<char> {
    match kind {
        ErrorKind::UnknownEnvironment(n) => "Unknown environment \""@ + spec_shown(names, n)
            + "\""@,
        ErrorKind::MissingEnvironment(n) => "Environment "@ + spec_shown(names, n)
            + " does not exist"@,
        ErrorKind::UnknownType(n) => "Type "@ + spec_shown(names, n) + " not found"@,
        ErrorKind::UnknownVariable(n) => "Variable "@ + spec_shown(names, n) + " does not exist"@,
        ErrorKind::UnknownDefinition(n) => "Definition of "@ + spec_shown(names, n)
            + " not found"@,
        ErrorKind::MissingOpcode(m, t) => "Definition of "@ + opcode_name(m, t) + " not found"@,
        ErrorKind::UnknownIdent(_) => "Unknown identifier"@,
        ErrorKind::DuplicateEnvironment(n) => "Redefinition of environment "@ + spec_shown(
            names,
            n,
        ),
        ErrorKind::DuplicateFunction(n) => "Redefinition of function "@ + spec_shown(names, n),
        ErrorKind::DuplicateOpcode { name, id, other } => "Function "@ + spec_shown(names, name)
            + " tries to have the same ID ("@ + spec_decimal(id as nat) + ") as "@ + spec_shown(
            names,
            other,
        ),
        ErrorKind::DuplicateType(n) => "Redefinition of type "@ + spec_shown(names, n),
        ErrorKind::DuplicatePool => "Redefinition of the pool size"@,
        ErrorKind::TooManyArguments => "Too many arguments"@,
        ErrorKind::NotEnoughArguments => "Not enough arguments"@,
        ErrorKind::OutOfVariableSpace => "Out of variable space; a single function is limited to 256 bytes"@,
        ErrorKind::BytecodeLimit(env) => "Hit bytecode limit in environment "@ + spec_shown(
            names,
            env,
        ),
        ErrorKind::PoolTooLarge(n) => "A pool size of "@ + spec_signed_decimal(n as int)
            + " is larger than the maximum of 65534"@,
        ErrorKind::NegativePool => "A pool size cannot be negative"@,
        ErrorKind::PoolNotConstant => "This pool size is not computable at compile time!"@,
        ErrorKind::TooManyIdentifiers => "Too many identifiers"@,
        ErrorKind::MultipleReturns => "A function may only have one return value"@,
        ErrorKind::MacroTarget(n) => spec_shown(names, n) + " may not be a macro"@,
        ErrorKind::AliasCycle(n) => "Alias "@ + spec_shown(names, n) + " refers to itself"@,
        ErrorKind::AliasArgumentCycle => "The arguments of an alias call the alias itself"@,
        ErrorKind::TypeCycle(n) => "Type "@ + spec_shown(names, n) + " refers to itself"@,
        ErrorKind::ArgumentIdTooLarge(index) => "Argument ID is too large ("@ + spec_decimal(
            index as nat,
        ) + ")"@,
        ErrorKind::ArgumentIdZero => "Argument IDs start at 1"@,
        ErrorKind::NoReturnValue => "Expression has no return value"@,
        ErrorKind::NotYetSupported(feature) => spec_feature_text(feature)
            + " are not yet supported"@,
    }
}

/// The message of a warning.
pub open spec fn spec_warning_message(names: Seq<Seq<char>>, warning: Warning) -> Seq<char> {
    match warning {
        Warning::DuplicateDefinition(n) => "duplicate definition of "@ + spec_shown(names, n)
            + " inside `use` statement."@,
        Warning::ArgumentTypeMismatch => "argument type does not match definition"@,
    }
}

/// Shows a name.
pub fn shown<'a>(idents: &'a Interner, id: Ident) -> (res: &'a str)
    ensures
        res@ == spec_shown(idents@, id),
{
    match idents.resolve(id) {
        Some(s) => s,
        None => "?",
    }
}

fn three(a: &str, b: &str, c: &str) -> (res: String)
    ensures
        res@ == a@ + b@ + c@,
{
    let mut text = String::from_str(a);
    text.append(b);
    text.append(c);
    text
}

fn feature_text(feature: Feature) -> (res: &'static str)
    ensures
        res@ == spec_feature_text(feature),
{
    match feature {
        Feature::ControlFlow => "Control flow statements",
        Feature::Pointers => "Pointers",
        Feature::StringLiteral => "String literals",
        Feature::RawAssembly => "Raw assembly blocks",
        Feature::Include => "Include directives",
        Feature::StructVariable => "Structure variables",
    }
}

impl ErrorKind {
    /// Writes the message of the error, with names as the interner resolves
    /// them.
    pub fn message(&self, idents: &Interner) -> (res: String)
        ensures
            res@ == spec_message(idents@, *self),
    {
        match *self {
            ErrorKind::UnknownEnvironment(n) => three(
                "Unknown environment \"",
                shown(idents, n),
                "\"",
            ),
            ErrorKind::MissingEnvironment(n) => three(
                "Environment ",
                shown(idents, n),
                " does not exist",
            ),
            ErrorKind::UnknownType(n) => three("Type ", shown(idents, n), " not found"),
            ErrorKind::UnknownVariable(n) => three(
                "Variable ",
                shown(idents, n),
                " does not exist",
            ),
            ErrorKind::UnknownDefinition(n) => three(
                "Definition of ",
                shown(idents, n),
                " not found",
            ),
            ErrorKind::MissingOpcode(m, t) => three(
                "Definition of ",
                opcode_name_string(m, t).as_str(),
                " not found",
            ),
            ErrorKind::UnknownIdent(_) => String::from_str("Unknown identifier"),
            ErrorKind::DuplicateEnvironment(n) => String::from_str(
                "Redefinition of environment ",
            ).concat(shown(idents, n)),
            ErrorKind::DuplicateFunction(n) => String::from_str(
                "Redefinition of function ",
            ).concat(shown(idents, n)),
            ErrorKind::DuplicateOpcode { name, id, other } => {
                let mut text = String::from_str("Function ");
                text.append(shown(idents, name));
                text.append(" tries to have the same ID (");
                text.append(decimal(id as u64).as_str());
                text.append(") as ");
                text.append(shown(idents, other));
                text
            },
            ErrorKind::DuplicateType(n) => String::from_str("Redefinition of type ").concat(
                shown(idents, n),
            ),
            ErrorKind::DuplicatePool => String::from_str("Redefinition of the pool size"),
            ErrorKind::TooManyArguments => String::from_str("Too many arguments"),
            ErrorKind::NotEnoughArguments => String::from_str("Not enough arguments"),
            ErrorKind::OutOfVariableSpace => String::from_str(
                "Out of variable space; a single function is limited to 256 bytes",
            ),
            ErrorKind::BytecodeLimit(env) => String::from_str(
                "Hit bytecode limit in environment ",
            ).concat(shown(idents, env)),
            ErrorKind::PoolTooLarge(n) => three(
                "A pool size of ",
                signed_decimal(n).as_str(),
                " is larger than the maximum of 65534",
            ),
            ErrorKind::NegativePool => String::from_str("A pool size cannot be negative"),
            ErrorKind::PoolNotConstant => String::from_str(
                "This pool size is not computable at compile time!",
            ),
            ErrorKind::TooManyIdentifiers => String::from_str("Too many identifiers"),
            ErrorKind::MultipleReturns => String::from_str(
                "A function may only have one return value",
            ),
            ErrorKind::MacroTarget(n) => String::from_str(shown(idents, n)).concat(
                " may not be a macro",
            ),
            ErrorKind::AliasCycle(n) => three("Alias ", shown(idents, n), " refers to itself"),
            ErrorKind::AliasArgumentCycle => String::from_str(
                "The arguments of an alias call the alias itself",
            ),
            ErrorKind::TypeCycle(n) => three("Type ", shown(idents, n), " refers to itself"),
            ErrorKind::ArgumentIdTooLarge(index) => three(
                "Argument ID is too large (",
                decimal(index as u64).as_str(),
                ")",
            ),
            ErrorKind::ArgumentIdZero => String::from_str("Argument IDs start at 1"),
            ErrorKind::NoReturnValue => String::from_str("Expression has no return value"),
            ErrorKind::NotYetSupported(feature) => String::from_str(feature_text(feature)).concat(
                " are not yet supported",
            ),
        }
    }
}

impl Diagnostic {
    /// Writes the message of the diagnostic.
    pub fn message(&self, idents: &Interner) -> (res: String)
        ensures
            res@ == spec_message(idents@, self.kind),
    {
        self.kind.message(idents)
    }
}

impl Warning {
    /// Writes the message of the warning.
    pub fn message(&self, idents: &Interner) -> (res: String)
        ensures
            res@ == spec_warning_message(idents@, *self),
    {
        match *self {
            Warning::DuplicateDefinition(n) => three(
                "duplicate definition of ",
                shown(idents, n),
                " inside `use` statement.",
            ),
            Warning::ArgumentTypeMismatch => String::from_str(
                "argument type does not match definition",
            ),
        }
    }
}

} // verus!
