//! The syntax tree that the compiler consumes: top-level declarations,
//! environment statements and script statements.

use crate::expr::{Expr, OpView};
use crate::ident::Ident;
use vstd::prelude::*;

verus! {

/// A position in a source file, in bytes.
pub type Location = usize;

/// A slice of a source file: where it starts and where it ends.
pub type Span = (Location, Location);

/// A declaration at the top level of a file.
#[derive(Debug)]
pub enum Root {
    Script(Script),
    Env(Env),
    RawAsm(RawAsm),
    Include(Include),
    Typedef(Typedef),
    Struct(Struct),
}

/// A script: a function body that runs in an environment.
#[derive(Debug)]
pub struct Script {
    /// The source span of the script's environment and name.
    pub span: Span,
    /// The environment whose opcodes the script uses.
    pub env: Ident,
    /// The script's name.
    pub name: Ident,
    /// The statements of the script.
    pub body: Vec<ScriptStatement>,
}

/// A statement of a script.
#[derive(Debug)]
pub struct ScriptStatement {
    /// The source span of the statement, without its semicolon.
    pub span: Span,
    pub kind: ScriptStatementKind,
}

/// The kinds of statements that a script may hold.
#[derive(Debug)]
pub enum ScriptStatementKind {
    SimpleStatement(SimpleStatement),
    If { cond: Expr, body: Vec<ScriptStatement>, else_stmt: Vec<ScriptStatement> },
    While { cond: Expr, body: Vec<ScriptStatement> },
    DoWhile { cond: Expr, body: Vec<ScriptStatement> },
    For { init: SimpleStatement, cond: Expr, body: Vec<ScriptStatement>, post_body: SimpleStatement },
    Repeat { cond: Expr, body: Vec<ScriptStatement> },
    Loop { body: Vec<ScriptStatement> },
}

/// The statements that may also stand inside another one, such as the
/// initialisation of a `for`.
#[derive(Debug)]
pub enum SimpleStatement {
    /// An expression that is evaluated for its effect.
    Expr(Expr),
    /// The declaration of a variable, with or without a first value.
    VarDecl { name: Ident, var_type: VarType, init: Option<Expr> },
    /// A new value for a variable.
    Assignment { name: Ident, value: Expr },
}

/// The type of a variable.
#[derive(Clone, Copy, Debug)]
pub struct VarType {
    pub base_type: Ident,
    /// Whether the type is a pointer to `base_type`.
    pub is_ptr: bool,
}

/// An environment block.
#[derive(Debug)]
pub struct Env {
    /// The source span of the keyword and the environment's name.
    pub span: Span,
    pub name: Ident,
    pub body: Vec<EnvStatement>,
}

/// A statement of an environment block.
#[derive(Debug)]
pub struct EnvStatement {
    /// The source span of the statement, without its semicolon.
    pub span: Span,
    pub kind: EnvStatementKind,
}

/// The kinds of statements that an environment block may hold.
#[derive(Debug)]
pub enum EnvStatementKind {
    /// The definition of a function.
    Def { name: Ident, args: Vec<DefParam>, kind: DefKind },
    /// All definitions of another environment.
    Use { target: Ident },
    /// The size of the environment's variable pool.
    Pool { size: Expr },
}

/// How a function is defined.
#[derive(Debug)]
pub enum DefKind {
    /// The function has an opcode of its own.
    Simple,
    /// The function stands for another one and has no opcode of its own.
    Alias { target: Ident, target_args: Vec<AliasParam> },
    /// The function is written out as text, with or without further
    /// arguments behind the declared ones.
    Macro { target: Ident, varargs: bool },
}

/// Assembly that is passed through.
#[derive(Debug)]
pub struct RawAsm {
    pub contents: String,
}

/// A request to read another file.
#[derive(Debug)]
pub struct Include {
    pub path: String,
}

/// A new name for a type.
#[derive(Clone, Copy, Debug)]
pub struct Typedef {
    pub name: Ident,
    pub target: Ident,
}

/// A structure type.
#[derive(Debug)]
pub struct Struct {
    pub name: Ident,
    pub members: Vec<StructMember>,
}

/// A member of a structure type.
#[derive(Clone, Copy, Debug)]
pub struct StructMember {
    pub name: Ident,
    pub member_type: Ident,
}

/// A parameter of a definition: the name of its type, and what it is for.
#[derive(Clone, Copy, Debug)]
pub struct DefParam {
    pub name: Ident,
    pub kind: DefParamKind,
}

/// What a parameter is for.
#[derive(Clone, Copy, Debug, PartialEq, Eq, Structural)]
pub enum DefParamKind {
    /// A value that is handed to the function.
    Simple,
    /// The place for the function's result.
    Return,
    /// A value that is known when the script is compiled.
    Const,
}

/// What an alias hands to its target in one argument position.
#[derive(Debug)]
pub enum AliasParam {
    /// One of the alias's own arguments, counted from one.
    Placeholder(usize),
    /// An expression of its own.
    Expr { is_const: bool, expr: Expr },
}

/// An alias argument as a mathematical value.
pub enum AliasParamView {
    Placeholder(usize),
    Expr { is_const: bool, ops: Seq<OpView> },
}

impl View for AliasParam {
    type V = AliasParamView;

    open spec fn view(&self) -> AliasParamView {
        match *self {
            AliasParam::Placeholder(index) => AliasParamView::Placeholder(index),
            AliasParam::Expr { is_const, expr } => AliasParamView::Expr { is_const, ops: expr@ },
        }
    }
}

/// The views of a list of alias arguments.
pub open spec fn alias_params_view(params: Seq<AliasParam>) -> Seq<AliasParamView> {
    params.map_values(|p: AliasParam| p@)
}

impl AliasParam {
    /// A copy of the alias argument.
    pub fn duplicate(&self) -> (res: AliasParam)
        ensures
            res@ == self@,
    {
        match self {
            AliasParam::Placeholder(index) => AliasParam::Placeholder(*index),
            AliasParam::Expr { is_const, expr } => AliasParam::Expr {
                is_const: *is_const,
                expr: expr.duplicate(),
            },
        }
    }
}

/// Copies a list of alias arguments.
pub fn duplicate_alias_params(params: &Vec<AliasParam>) -> (res: Vec<AliasParam>)
    ensures
        alias_params_view(res@) == alias_params_view(params@),
{
    let mut res: Vec<AliasParam> = Vec::new();
    let mut i: usize = 0;
    while i < params.len()
        invariant
            i <= params.len(),
            alias_params_view(res@) == alias_params_view(params@).take(i as int),
        decreases params.len() - i,
    {
        let p = params[i].duplicate();
        res.push(p);
        proof {
            let all = alias_params_view(params@);
            assert(alias_params_view(res@) =~= all.take(i as int).push(all[i as int]));
            assert(all.take(i + 1) =~= all.take(i as int).push(all[i as int]));
        }
        i += 1;
    }
    proof {
        let all = alias_params_view(params@);
        assert(all.take(params.len() as int) =~= all);
    }
    res
}

/// Copies a list of parameters.
pub fn duplicate_params(params: &Vec<DefParam>) -> (res: Vec<DefParam>)
    ensures
        res@ == params@,
{
    let mut res: Vec<DefParam> = Vec::new();
    let mut i: usize = 0;
    while i < params.len()
        invariant
            i <= params.len(),
            res@ == params@.take(i as int),
        decreases params.len() - i,
    {
        res.push(params[i]);
        proof {
            assert(params@.take(i + 1) =~= params@.take(i as int).push(params@[i as int]));
        }
        i += 1;
    }
    proof {
        assert(params@.take(params.len() as int) =~= params@);
    }
    res
}

} // verus!
