//! What lowering means: for each expression and statement, the slot of its
//! result, the variables that it allocates and the assembler text that it
//! emits, as mathematical functions.

use crate::diag::{Diagnostic, ErrorKind, Feature, Mnemonic, Warning};
use crate::envs::{
    env_pos, has_env, spec_declare_env, spec_lookup, values_count, EnvView, FuncKindView, FuncView,
};
use crate::expr::{OpRef, OpView};
use crate::ident::{name_of, name_position, Ident};
use crate::output::spec_emit_env;
use crate::parsing::{
    AliasParamView, DefParam, DefParamKind, Root, Script, ScriptStatement, ScriptStatementKind,
    SimpleStatement,
};
use crate::stdenv::std_view;
use crate::text::{spec_decimal, spec_signed_decimal};
use crate::types::{
    seed_types, spec_collect_types, spec_type_of, spec_type_text, Type, TypeEntryView,
};
use crate::vars::{
    frame_alloc, frame_bind, frame_lookup, frame_size, frame_slot, frame_wf, lemma_slot_beyond,
    lemma_slot_in_frame, Variable,
};
use vstd::prelude::*;

verus! {

/// How deeply the arguments of aliases may call further aliases: as deeply
/// as the environment has definitions. Calls that are nested more deeply
/// pass through the arguments of one alias twice, and so would never end.
pub open spec fn alias_depth(scope: Scope) -> nat {
    scope.env.entries.len()
}

/// What a function's compilation has produced so far.
pub struct LowerState {
    /// The variables of the frame.
    pub frame: Seq<Variable>,
    /// The assembler text.
    pub text: Seq<char>,
    /// The warnings.
    pub warnings: Seq<Warning>,
}

/// What a function is compiled against.
pub struct Scope {
    /// The environment of the function.
    pub env: EnvView,
    /// The types of the program.
    pub types: Seq<TypeEntryView>,
    /// The interned strings.
    pub names: Seq<Seq<char>>,
}

/// A failure of lowering: the error, and the state in which it was met.
/// Whatever was allocated and written before the failure stays.
pub type Failure = (ErrorKind, LowerState);

/// The outcome of lowering an expression: the slot of its value, if it has
/// one, and the state afterwards; or the failure.
pub type Lowered = Result<(Option<u8>, LowerState), Failure>;

/// The outcome of lowering several expressions: their slots and the state
/// afterwards; or the failure.
pub type LoweredSlots = Result<(Seq<u8>, LowerState), Failure>;

/// The outcome of a statement: the state afterwards; or the failure.
pub type Stated = Result<LowerState, Failure>;

/// The later sequence is the earlier one with more behind it.
pub open spec fn seq_extends<A>(before: Seq<A>, after: Seq<A>) -> bool {
    &&& before.len() <= after.len()
    &&& forall|i: int| 0 <= i < before.len() ==> #[trigger] after[i] == before[i]
}

/// The type of integer literals.
pub open spec fn default_type() -> Type {
    Type { signed: false, size: 1 }
}

/// The family name of an opcode.
pub open spec fn mnemonic_text(m: Mnemonic) -> Seq<char> {
    match m {
        Mnemonic::Put => "put"@,
        Mnemonic::Mov => "mov"@,
        Mnemonic::Mul => "mul"@,
        Mnemonic::Div => "div"@,
        Mnemonic::Mod => "mod"@,
        Mnemonic::Add => "add"@,
        Mnemonic::Sub => "sub"@,
        Mnemonic::Shl => "shl"@,
        Mnemonic::Shr => "shr"@,
        Mnemonic::Band => "band"@,
        Mnemonic::Bxor => "bxor"@,
        Mnemonic::Bor => "bor"@,
        Mnemonic::Equ => "equ"@,
        Mnemonic::Nequ => "nequ"@,
        Mnemonic::Lt => "lt"@,
        Mnemonic::Gt => "gt"@,
        Mnemonic::Lte => "lte"@,
        Mnemonic::Gte => "gte"@,
        Mnemonic::Land => "land"@,
        Mnemonic::Lor => "lor"@,
    }
}

/// The name of the opcode of a family for a type, such as `add_u8`.
pub open spec fn opcode_name(m: Mnemonic, t: Type) -> Seq<char> {
    mnemonic_text(m) + seq!['_'] + spec_type_text(t)
}

/// The assembler's name for the opcode of a family for a type in the scope's
/// environment. The opcode's name must be defined there; aliases are followed.
pub open spec fn spec_opcode(scope: Scope, m: Mnemonic, t: Type) -> Result<Seq<char>, ErrorKind> {
    match name_position(scope.names, opcode_name(m, t)) {
        None => Err(ErrorKind::MissingOpcode(m, t)),
        Some(id) => scope.env.expand(scope.names, id),
    }
}

/// An instruction with two operands.
pub open spec fn db_line2(opcode: Seq<char>, a: Seq<char>, b: Seq<char>) -> Seq<char> {
    "\tdb "@ + opcode + ", "@ + a + ", "@ + b + "\n"@
}

/// An instruction with three operands.
pub open spec fn db_line3(opcode: Seq<char>, a: Seq<char>, b: Seq<char>, c: Seq<char>) -> Seq<
    char,
> {
    "\tdb "@ + opcode + ", "@ + a + ", "@ + b + ", "@ + c + "\n"@
}

/// The operands of an instruction, each behind a comma.
pub open spec fn operands_text(slots: Seq<u8>) -> Seq<char>
    decreases slots.len(),
{
    if slots.len() == 0 {
        Seq::empty()
    } else {
        operands_text(slots.drop_last()) + ", "@ + spec_decimal(slots.last() as nat)
    }
}

/// An instruction with any number of slots as operands.
pub open spec fn db_line(opcode: Seq<char>, slots: Seq<u8>) -> Seq<char> {
    "\tdb "@ + opcode + operands_text(slots) + "\n"@
}

/// The arguments of a macro: each slot behind a space and before a comma.
pub open spec fn macro_operands_text(slots: Seq<u8>) -> Seq<char>
    decreases slots.len(),
{
    if slots.len() == 0 {
        Seq::empty()
    } else {
        macro_operands_text(slots.drop_last()) + " "@ + spec_decimal(slots.last() as nat) + ","@
    }
}

/// A macro call: the macro's text and its arguments.
pub open spec fn macro_line(target: Seq<char>, slots: Seq<u8>) -> Seq<char> {
    "\t"@ + target + macro_operands_text(slots) + "\n"@
}

/// The type of the variable that starts at slot `a`.
pub open spec fn slot_type(frame: Seq<Variable>, a: u8) -> Type {
    frame_slot(frame, a as int).unwrap().t
}

/// Allocation in the state's frame. A failed allocation changes nothing.
pub open spec fn st_alloc(st: LowerState, t: Type) -> Result<(u8, LowerState), Failure> {
    match frame_alloc(st.frame, t) {
        Ok((a, frame)) => Ok((a, LowerState { frame, ..st })),
        Err(e) => Err((e, st)),
    }
}

/// The state with one more piece of text.
pub open spec fn st_emit(st: LowerState, line: Seq<char>) -> LowerState {
    LowerState { text: st.text + line, ..st }
}

/// The state with one more warning.
pub open spec fn st_warn(st: LowerState, w: Warning) -> LowerState {
    LowerState { warnings: st.warnings.push(w), ..st }
}

/// An operand must have a value.
pub open spec fn value_of(lowered: Lowered) -> Result<(u8, LowerState), Failure> {
    match lowered {
        Err(e) => Err(e),
        Ok((None, st)) => Err((ErrorKind::NoReturnValue, st)),
        Ok((Some(a), st)) => Ok((a, st)),
    }
}

/// A constant: a new slot of type `t`, and a `put` of the constant's text
/// into it.
pub open spec fn spec_put(scope: Scope, st: LowerState, t: Type, value: Seq<char>) -> Lowered {
    match st_alloc(st, t) {
        Err(e) => Err(e),
        Ok((res, st1)) => match spec_opcode(scope, Mnemonic::Put, t) {
            Err(e) => Err((e, st1)),
            Ok(put) => Ok((Some(res), st_emit(st1, db_line2(put, spec_decimal(res as nat), value)))),
        },
    }
}

/// A binary operator on the slots `l` and `r`: a new slot of the promoted
/// type, and one instruction with the operands result, left, right.
pub open spec fn spec_binary(scope: Scope, st: LowerState, m: Mnemonic, l: u8, r: u8) -> Lowered {
    let t = Type::spec_promote(slot_type(st.frame, l), slot_type(st.frame, r));
    match st_alloc(st, t) {
        Err(e) => Err(e),
        Ok((res, st1)) => match spec_opcode(scope, m, t) {
            Err(e) => Err((e, st1)),
            Ok(opcode) => Ok(
                (
                    Some(res),
                    st_emit(
                        st1,
                        db_line3(
                            opcode,
                            spec_decimal(res as nat),
                            spec_decimal(l as nat),
                            spec_decimal(r as nat),
                        ),
                    ),
                ),
            ),
        },
    }
}

/// Negation of the slot `x`: a zero of the operand's type is put into a new
/// slot, and the operand is subtracted from it. Both slots are allocated and
/// both opcodes are found before anything is written.
pub open spec fn spec_negate(scope: Scope, st: LowerState, x: u8) -> Lowered {
    let t = slot_type(st.frame, x);
    match st_alloc(st, t) {
        Err(e) => Err(e),
        Ok((zero, st1)) => match st_alloc(st1, t) {
            Err(e) => Err(e),
            Ok((res, st2)) => match spec_opcode(scope, Mnemonic::Put, t) {
                Err(e) => Err((e, st2)),
                Ok(put) => match spec_opcode(scope, Mnemonic::Sub, t) {
                    Err(e) => Err((e, st2)),
                    Ok(sub) => Ok(
                        (
                            Some(res),
                            st_emit(
                                st_emit(st2, db_line2(put, spec_decimal(zero as nat), "0"@)),
                                db_line3(
                                    sub,
                                    spec_decimal(res as nat),
                                    spec_decimal(zero as nat),
                                    spec_decimal(x as nat),
                                ),
                            ),
                        ),
                    ),
                },
            },
        },
    }
}

/// The complement of the slot `x`: all ones are put into a new slot, and the
/// operand is combined with them by exclusive or. Both slots are allocated
/// and both opcodes are found before anything is written.
pub open spec fn spec_complement(scope: Scope, st: LowerState, x: u8) -> Lowered {
    let t = slot_type(st.frame, x);
    match st_alloc(st, t) {
        Err(e) => Err(e),
        Ok((ones, st1)) => match st_alloc(st1, t) {
            Err(e) => Err(e),
            Ok((res, st2)) => match spec_opcode(scope, Mnemonic::Put, t) {
                Err(e) => Err((e, st2)),
                Ok(put) => match spec_opcode(scope, Mnemonic::Bxor, t) {
                    Err(e) => Err((e, st2)),
                    Ok(xor) => Ok(
                        (
                            Some(res),
                            st_emit(
                                st_emit(st2, db_line2(put, spec_decimal(ones as nat), "$FF"@)),
                                db_line3(
                                    xor,
                                    spec_decimal(res as nat),
                                    spec_decimal(x as nat),
                                    spec_decimal(ones as nat),
                                ),
                            ),
                        ),
                    ),
                },
            },
        },
    }
}

/// The return parameter's type name, if the parameters hold a return
/// parameter: that of the first one.
pub open spec fn return_param(formals: Seq<DefParam>) -> Option<Ident>
    decreases formals.len(),
{
    if formals.len() == 0 {
        None
    } else {
        match return_param(formals.drop_last()) {
            Some(t) => Some(t),
            None => if formals.last().kind == DefParamKind::Return {
                Some(formals.last().name)
            } else {
                None
            },
        }
    }
}

/// The slot for a call's result: allocated before any argument is lowered,
/// where the callee has a return parameter.
pub open spec fn spec_return_slot(scope: Scope, formals: Seq<DefParam>, st: LowerState) -> Lowered {
    match return_param(formals) {
        None => Ok((None, st)),
        Some(declared) => match spec_type_of(scope.types, declared) {
            Err(e) => Err((e, st)),
            Ok(t) => match st_alloc(st, t) {
                Err(e) => Err(e),
                Ok((a, st1)) => Ok((Some(a), st1)),
            },
        },
    }
}

/// The first placeholder among an alias's arguments that names an argument
/// which the alias does not have.
pub open spec fn first_too_large(target_args: Seq<AliasParamView>, count: nat) -> Option<usize>
    decreases target_args.len(),
{
    if target_args.len() == 0 {
        None
    } else {
        match first_too_large(target_args.drop_last(), count) {
            Some(index) => Some(index),
            None => match target_args.last() {
                AliasParamView::Placeholder(index) => if index > count {
                    Some(index)
                } else {
                    None
                },
                _ => None,
            },
        }
    }
}

/// Whether a placeholder among an alias's arguments is zero.
pub open spec fn has_zero_placeholder(target_args: Seq<AliasParamView>) -> bool {
    exists|j: int|
        0 <= j < target_args.len() && (#[trigger] target_args[j]) == AliasParamView::Placeholder(0)
}

/// The check of a call against its callee before anything is lowered: the
/// number of arguments, and for an alias its placeholders.
pub open spec fn spec_check_call(func: FuncView, argc: nat) -> Result<(), ErrorKind> {
    let count = values_count(func.args);
    let varargs = func.kind matches FuncKindView::Macro { varargs: true, .. };
    if argc > count && !varargs {
        Err(ErrorKind::TooManyArguments)
    } else if argc < count {
        Err(ErrorKind::NotEnoughArguments)
    } else {
        match func.kind {
            FuncKindView::Alias { target_args, .. } => match first_too_large(
                target_args,
                func.args.len(),
            ) {
                Some(index) => Err(ErrorKind::ArgumentIdTooLarge(index)),
                None => if has_zero_placeholder(target_args) {
                    Err(ErrorKind::ArgumentIdZero)
                } else {
                    Ok(())
                },
            },
            _ => Ok(()),
        }
    }
}

/// Lowers the operation at position `idx` of the arena `ops`.
///
/// Operands are lowered before the operation itself, the left one first. The
/// arguments of an alias are expressions of their own, which are lowered at a
/// depth that is lower by one; at depth zero they are refused, because the
/// calls then run in a circle. An operand
/// that does not stand before its operator, which no expression holds, counts
/// as an operand without a value.
///
/// A call is checked against its callee before anything is lowered. Then the
/// slot for the result is allocated, the arguments for the callee's
/// parameters are lowered, and for a macro the arguments behind those, which
/// only a macro that takes any number of arguments can have. A macro's line
/// lists the slots of all its arguments.
pub open spec fn spec_lower(scope: Scope, depth: nat, ops: Seq<OpView>, idx: int, st: LowerState) -> Lowered
    decreases depth, idx, 1nat, 0nat,
{
    if idx < 0 || idx >= ops.len() {
        Err((ErrorKind::NoReturnValue, st))
    } else {
        match ops[idx] {
            OpView::Number(n) => spec_put(scope, st, default_type(), spec_signed_decimal(n as int)),
            OpView::Text(_) => Err((ErrorKind::NotYetSupported(Feature::StringLiteral), st)),
            OpView::Variable(name) => match frame_lookup(st.frame, name) {
                Some(a) => Ok((Some(a as u8), st)),
                None => Err((ErrorKind::UnknownVariable(name), st)),
            },
            OpView::Address(_) => Err((ErrorKind::NotYetSupported(Feature::Pointers), st)),
            OpView::Deref(_) => Err((ErrorKind::NotYetSupported(Feature::Pointers), st)),
            OpView::Neg(x) => if x.0 < idx {
                match value_of(spec_lower(scope, depth, ops, x.0 as int, st)) {
                    Err(e) => Err(e),
                    Ok((operand, st1)) => spec_negate(scope, st1, operand),
                }
            } else {
                Err((ErrorKind::NoReturnValue, st))
            },
            OpView::Cpl(x) => if x.0 < idx {
                match value_of(spec_lower(scope, depth, ops, x.0 as int, st)) {
                    Err(e) => Err(e),
                    Ok((operand, st1)) => spec_complement(scope, st1, operand),
                }
            } else {
                Err((ErrorKind::NoReturnValue, st))
            },
            OpView::Binary(m, l, r) => if l.0 < idx && r.0 < idx {
                match value_of(spec_lower(scope, depth, ops, l.0 as int, st)) {
                    Err(e) => Err(e),
                    Ok((left, st1)) => match value_of(
                        spec_lower(scope, depth, ops, r.0 as int, st1),
                    ) {
                        Err(e) => Err(e),
                        Ok((right, st2)) => spec_binary(scope, st2, m, left, right),
                    },
                }
            } else {
                Err((ErrorKind::NoReturnValue, st))
            },
            OpView::Call(name, args) => match spec_lookup(scope.env.entries, name) {
                None => Err((ErrorKind::UnknownDefinition(name), st)),
                Some(func) => match spec_check_call(func, args.len()) {
                    Err(e) => Err((e, st)),
                    Ok(()) => match spec_return_slot(scope, func.args, st) {
                        Err(e) => Err(e),
                        Ok((ret, st1)) => match spec_args(
                            scope,
                            depth,
                            ops,
                            idx,
                            func.args,
                            args,
                            ret,
                            func.args.len(),
                            st1,
                        ) {
                            Err(e) => Err(e),
                            Ok((slots, st2)) => match func.kind {
                                FuncKindView::Normal { .. } => match scope.env.expand(
                                    scope.names,
                                    name,
                                ) {
                                    Err(e) => Err((e, st2)),
                                    Ok(opcode) => Ok((ret, st_emit(st2, db_line(opcode, slots)))),
                                },
                                FuncKindView::Alias { target_args, .. } => match spec_alias_args(
                                    scope,
                                    depth,
                                    target_args,
                                    slots,
                                    target_args.len(),
                                    st2,
                                ) {
                                    Err(e) => Err(e),
                                    Ok((passed, st3)) => match scope.env.expand(scope.names, name) {
                                        Err(e) => Err((e, st3)),
                                        Ok(opcode) => Ok(
                                            (ret, st_emit(st3, db_line(opcode, passed))),
                                        ),
                                    },
                                },
                                FuncKindView::Macro { target, .. } => match spec_rest_args(
                                    scope,
                                    depth,
                                    ops,
                                    idx,
                                    args,
                                    values_count(func.args),
                                    args.len(),
                                    st2,
                                ) {
                                    Err(e) => Err(e),
                                    Ok((rest, st3)) => match name_of(scope.names, target) {
                                        None => Err((ErrorKind::UnknownIdent(target), st3)),
                                        Some(text) => Ok(
                                            (ret, st_emit(st3, macro_line(text, slots + rest))),
                                        ),
                                    },
                                },
                            },
                        },
                    },
                },
            },
        }
    }
}

/// Lowers the arguments of the call at position `idx` for the first `k`
/// parameters of the callee, in the parameters' order: a value parameter
/// takes the next argument, whose type is held against the declared one, and
/// the return parameter takes the slot `ret`. Gives the slots in the order of
/// the parameters.
pub open spec fn spec_args(
    scope: Scope,
    depth: nat,
    ops: Seq<OpView>,
    idx: int,
    formals: Seq<DefParam>,
    args: Seq<OpRef>,
    ret: Option<u8>,
    k: nat,
    st: LowerState,
) -> LoweredSlots
    decreases depth, idx, 0nat, k,
{
    if k == 0 || k > formals.len() {
        Ok((Seq::empty(), st))
    } else {
        match spec_args(scope, depth, ops, idx, formals, args, ret, (k - 1) as nat, st) {
            Err(e) => Err(e),
            Ok((slots, st1)) => {
                let formal = formals[k - 1];
                if formal.kind == DefParamKind::Return {
                    match ret {
                        Some(a) => Ok((slots.push(a), st1)),
                        None => Err((ErrorKind::NoReturnValue, st1)),
                    }
                } else {
                    let j = values_count(formals.take(k - 1)) as int;
                    if j < args.len() && 0 <= args[j].0 < idx {
                        match value_of(spec_lower(scope, depth, ops, args[j].0 as int, st1)) {
                            Err(e) => Err(e),
                            Ok((a, st2)) => match spec_type_of(scope.types, formal.name) {
                                Err(e) => Err((e, st2)),
                                Ok(t) => Ok(
                                    (
                                        slots.push(a),
                                        if t != slot_type(st2.frame, a) {
                                            st_warn(st2, Warning::ArgumentTypeMismatch)
                                        } else {
                                            st2
                                        },
                                    ),
                                ),
                            },
                        }
                    } else {
                        Err((ErrorKind::NotEnoughArguments, st1))
                    }
                }
            },
        }
    }
}

/// Lowers the arguments of the call at position `idx` from the one at
/// position `first` up to the one before position `k`, in their order, and
/// gives their slots. These are the arguments of a macro behind those that
/// its parameters take; no type is declared for them.
pub open spec fn spec_rest_args(
    scope: Scope,
    depth: nat,
    ops: Seq<OpView>,
    idx: int,
    args: Seq<OpRef>,
    first: nat,
    k: nat,
    st: LowerState,
) -> LoweredSlots
    decreases depth, idx, 0nat, k,
{
    if k <= first || k > args.len() {
        Ok((Seq::empty(), st))
    } else {
        match spec_rest_args(scope, depth, ops, idx, args, first, (k - 1) as nat, st) {
            Err(e) => Err(e),
            Ok((slots, st1)) => if 0 <= args[k - 1].0 < idx {
                match value_of(spec_lower(scope, depth, ops, args[k - 1].0 as int, st1)) {
                    Err(e) => Err(e),
                    Ok((a, st2)) => Ok((slots.push(a), st2)),
                }
            } else {
                Err((ErrorKind::NoReturnValue, st1))
            },
        }
    }
}

/// What an alias hands to its target, for the first `k` of the target's
/// arguments: a placeholder stands for the slot of one of the alias's own
/// arguments, and an expression is lowered on its own.
pub open spec fn spec_alias_args(
    scope: Scope,
    depth: nat,
    target_args: Seq<AliasParamView>,
    slots: Seq<u8>,
    k: nat,
    st: LowerState,
) -> LoweredSlots
    decreases depth, 0int, 0nat, k,
{
    if k == 0 || k > target_args.len() {
        Ok((Seq::empty(), st))
    } else {
        match spec_alias_args(scope, depth, target_args, slots, (k - 1) as nat, st) {
            Err(e) => Err(e),
            Ok((passed, st1)) => match target_args[k - 1] {
                AliasParamView::Placeholder(index) => if 1 <= index <= slots.len() {
                    Ok((passed.push(slots[index - 1]), st1))
                } else if index == 0 {
                    Err((ErrorKind::ArgumentIdZero, st1))
                } else {
                    Err((ErrorKind::ArgumentIdTooLarge(index), st1))
                },
                AliasParamView::Expr { ops, .. } => if depth == 0 {
                    Err((ErrorKind::AliasArgumentCycle, st1))
                } else {
                    match value_of(
                        spec_lower(scope, (depth - 1) as nat, ops, ops.len() - 1, st1),
                    ) {
                        Err(e) => Err(e),
                        Ok((a, st2)) => Ok((passed.push(a), st2)),
                    }
                },
            },
        }
    }
}

/// Lowers a whole expression: the operation at its root.
pub open spec fn spec_expression(scope: Scope, depth: nat, ops: Seq<OpView>, st: LowerState) -> Lowered {
    spec_lower(scope, depth, ops, ops.len() - 1, st)
}

/// An assignment to a variable that exists: the value is lowered and moved
/// into the variable's slot, which is the result. Where the variable does not
/// exist, nothing is lowered.
pub open spec fn spec_set(scope: Scope, name: Ident, ops: Seq<OpView>, st: LowerState) -> Lowered {
    match frame_lookup(st.frame, name) {
        None => Err((ErrorKind::UnknownVariable(name), st)),
        Some(dest) => {
            let t = slot_type(st.frame, dest as u8);
            match value_of(spec_expression(scope, alias_depth(scope), ops, st)) {
                Err(e) => Err(e),
                Ok((source, st1)) => match spec_opcode(scope, Mnemonic::Mov, t) {
                    Err(e) => Err((e, st1)),
                    Ok(mov) => Ok(
                        (
                            Some(dest as u8),
                            st_emit(
                                st1,
                                db_line2(mov, spec_decimal(dest), spec_decimal(source as nat)),
                            ),
                        ),
                    ),
                },
            }
        },
    }
}

/// A simple statement: an expression whose value is dropped, a declaration,
/// which allocates a variable, names it and then assigns the first value if
/// there is one, or an assignment. A declaration whose type is unknown, or
/// for which the frame has no room, changes nothing.
pub open spec fn spec_simple_statement(scope: Scope, stmt: SimpleStatement, st: LowerState) -> Stated {
    match stmt {
        SimpleStatement::Expr(expr) => match spec_expression(
            scope,
            alias_depth(scope),
            expr@,
            st,
        ) {
            Err(e) => Err(e),
            Ok((_, st1)) => Ok(st1),
        },
        SimpleStatement::VarDecl { name, var_type, init } => if var_type.is_ptr {
            Err((ErrorKind::NotYetSupported(Feature::Pointers), st))
        } else {
            match spec_type_of(scope.types, var_type.base_type) {
                Err(e) => Err((e, st)),
                Ok(t) => match st_alloc(st, t) {
                    Err(e) => Err(e),
                    Ok((a, st1)) => {
                        let st2 = LowerState { frame: frame_bind(st1.frame, a as int, name), ..st1 };
                        match init {
                            None => Ok(st2),
                            Some(expr) => match spec_set(scope, name, expr@, st2) {
                                Err(e) => Err(e),
                                Ok((_, st3)) => Ok(st3),
                            },
                        }
                    },
                },
            }
        },
        SimpleStatement::Assignment { name, value } => match spec_set(scope, name, value@, st) {
            Err(e) => Err(e),
            Ok((_, st1)) => Ok(st1),
        },
    }
}

/// A statement of a script. Control flow is not lowered.
#[verifier::opaque]
pub open spec fn spec_statement(scope: Scope, kind: ScriptStatementKind, st: LowerState) -> Stated {
    match kind {
        ScriptStatementKind::SimpleStatement(stmt) => spec_simple_statement(scope, stmt, st),
        _ => Err((ErrorKind::NotYetSupported(Feature::ControlFlow), st)),
    }
}

/// The state after the first `k` statements of a script's body, or the
/// diagnostic of the first statement that fails, with that statement's span.
pub open spec fn spec_statements(scope: Scope, body: Seq<ScriptStatement>, k: nat, st: LowerState) -> Result<
    LowerState,
    Diagnostic,
>
    decreases k,
{
    if k == 0 || k > body.len() {
        Ok(st)
    } else {
        match spec_statements(scope, body, (k - 1) as nat, st) {
            Err(d) => Err(d),
            Ok(st1) => match spec_statement(scope, body[k - 1].kind, st1) {
                Err((kind, _)) => Err(Diagnostic { kind, span: Some(body[k - 1].span) }),
                Ok(st2) => Ok(st2),
            },
        }
    }
}

/// The text in front of a function's instructions: its section and its
/// label.
pub open spec fn function_header(name: Seq<char>) -> Seq<char> {
    "\nsection \""@ + name + " evscript fn\", romx\n"@ + name + "::\n"@
}

/// The text behind a function's instructions: the opcode zero, which halts.
pub open spec fn function_footer() -> Seq<char> {
    "\tdb 0\n"@
}

/// The compilation of a script: its environment must exist; its variables
/// start from an empty frame; its text is the header, the instructions of its
/// statements in their order, and the footer.
#[verifier::opaque]
pub open spec fn spec_compile_function(
    envs: Seq<EnvView>,
    types: Seq<TypeEntryView>,
    names: Seq<Seq<char>>,
    script: Script,
) -> Result<LowerState, Diagnostic> {
    if !has_env(envs, script.env) {
        Err(Diagnostic { kind: ErrorKind::MissingEnvironment(script.env), span: Some(script.span) })
    } else {
        match name_of(names, script.name) {
            None => Err(
                Diagnostic { kind: ErrorKind::UnknownIdent(script.name), span: Some(script.span) },
            ),
            Some(name) => {
                let scope = Scope { env: envs[env_pos(envs, script.env)], types, names };
                let start = LowerState {
                    frame: Seq::empty(),
                    text: function_header(name),
                    warnings: Seq::empty(),
                };
                match spec_statements(scope, script.body@, script.body@.len(), start) {
                    Err(d) => Err(d),
                    Ok(st) => Ok(st_emit(st, function_footer())),
                }
            },
        }
    }
}

/// The number of bytes that a function's variables and temporaries take.
#[derive(Clone, Copy, Debug, PartialEq, Eq)]
pub struct Usage {
    pub name: Ident,
    pub bytes: usize,
}

/// What the compilation of a program has produced so far.
pub struct ProgramState {
    /// The environments declared so far, the standard one first.
    pub envs: Seq<EnvView>,
    /// The assembler text.
    pub text: Seq<char>,
    /// The warnings.
    pub warnings: Seq<Warning>,
    /// The frame usage of the functions compiled so far.
    pub usage: Seq<Usage>,
}

/// What a declaration at the top level does: an environment block is
/// declared and the lines for its opcodes are written; a script is compiled
/// against the environments declared before it; typedefs and structures have
/// been dealt with when the types were collected; assembly and includes are
/// refused. With `explain` the lines of an environment stand between
/// comments.
pub open spec fn spec_root(
    types: Seq<TypeEntryView>,
    names: Seq<Seq<char>>,
    explain: bool,
    st: ProgramState,
    root: Root,
) -> Result<ProgramState, Diagnostic> {
    match root {
        Root::Env(decl) => match spec_declare_env(st.envs, st.warnings, decl) {
            Err(d) => Err(d),
            Ok((envs, warnings)) => match spec_emit_env(names, envs.last(), explain) {
                Err(kind) => Err(Diagnostic { kind, span: Some(decl.span) }),
                Ok(lines) => Ok(ProgramState { envs, text: st.text + lines, warnings, ..st }),
            },
        },
        Root::Script(script) => match spec_compile_function(st.envs, types, names, script) {
            Err(d) => Err(d),
            Ok(compiled) => Ok(
                ProgramState {
                    envs: st.envs,
                    text: st.text + compiled.text,
                    warnings: st.warnings + compiled.warnings,
                    usage: st.usage.push(
                        Usage { name: script.name, bytes: frame_size(compiled.frame) as usize },
                    ),
                },
            ),
        },
        Root::RawAsm(_) => Err(
            Diagnostic { kind: ErrorKind::NotYetSupported(Feature::RawAssembly), span: None },
        ),
        Root::Include(_) => Err(
            Diagnostic { kind: ErrorKind::NotYetSupported(Feature::Include), span: None },
        ),
        Root::Typedef(_) => Ok(st),
        Root::Struct(_) => Ok(st),
    }
}

/// The state after the first `k` declarations, in their order.
pub open spec fn spec_roots(
    types: Seq<TypeEntryView>,
    names: Seq<Seq<char>>,
    explain: bool,
    st: ProgramState,
    roots: Seq<Root>,
    k: nat,
) -> Result<ProgramState, Diagnostic>
    decreases k,
{
    if k == 0 || k > roots.len() {
        Ok(st)
    } else {
        match spec_roots(types, names, explain, st, roots, (k - 1) as nat) {
            Err(d) => Err(d),
            Ok(st1) => spec_root(types, names, explain, st1, roots[k - 1]),
        }
    }
}

/// The compilation of a program, given the interned strings, among which are
/// the names of the primitive types and of the standard environment: the
/// types are collected, and the declarations are gone through in their order,
/// starting from the standard environment alone.
pub open spec fn spec_program(names: Seq<Seq<char>>, roots: Seq<Root>, explain: bool) -> Result<
    ProgramState,
    Diagnostic,
> {
    let u8_name = name_position(names, "u8"@).unwrap();
    let u16_name = name_position(names, "u16"@).unwrap();
    match spec_collect_types(seed_types(u8_name, u16_name), roots) {
        Err(kind) => Err(Diagnostic { kind, span: None }),
        Ok(types) => spec_roots(
            types,
            names,
            explain,
            ProgramState {
                envs: seq![std_view(names)],
                text: Seq::empty(),
                warnings: Seq::empty(),
                usage: Seq::empty(),
            },
            roots,
            roots.len(),
        ),
    }
}

/// A call that passes more arguments than its callee has value parameters
/// is refused, whatever else holds of it, unless the callee is a macro that
/// takes any number of arguments. Nothing is lowered and nothing is written.
pub proof fn lemma_too_many_arguments(
    scope: Scope,
    depth: nat,
    ops: Seq<OpView>,
    idx: int,
    st: LowerState,
    name: Ident,
    args: Seq<OpRef>,
)
    requires
        0 <= idx < ops.len(),
        ops[idx] == OpView::Call(name, args),
        spec_lookup(scope.env.entries, name) matches Some(func) && args.len() > values_count(
            func.args,
        ) && !(func.kind matches FuncKindView::Macro { varargs: true, .. }),
    ensures
        spec_lower(scope, depth, ops, idx, st) == Err::<(Option<u8>, LowerState), Failure>(
            (ErrorKind::TooManyArguments, st),
        ),
{
}

/// A call that passes fewer arguments than its callee has value parameters
/// is refused, whatever the callee is. Nothing is lowered and nothing is
/// written.
pub proof fn lemma_not_enough_arguments(
    scope: Scope,
    depth: nat,
    ops: Seq<OpView>,
    idx: int,
    st: LowerState,
    name: Ident,
    args: Seq<OpRef>,
)
    requires
        0 <= idx < ops.len(),
        ops[idx] == OpView::Call(name, args),
        spec_lookup(scope.env.entries, name) matches Some(func) && args.len() < values_count(
            func.args,
        ),
    ensures
        spec_lower(scope, depth, ops, idx, st) == Err::<(Option<u8>, LowerState), Failure>(
            (ErrorKind::NotEnoughArguments, st),
        ),
{
}

/// A macro that takes any number of arguments passes the check with as many
/// arguments as it has value parameters, or more.
pub proof fn lemma_varargs_accepted(func: FuncView, argc: nat)
    requires
        func.kind matches FuncKindView::Macro { varargs: true, .. },
        argc >= values_count(func.args),
    ensures
        spec_check_call(func, argc) == Ok::<(), ErrorKind>(()),
{
}

/// Where a placeholder is too large, the first such is found, and it is too
/// large.
pub proof fn lemma_first_too_large(target_args: Seq<AliasParamView>, count: nat, j: int)
    requires
        0 <= j < target_args.len(),
        target_args[j] matches AliasParamView::Placeholder(index) && index > count,
    ensures
        first_too_large(target_args, count) matches Some(index) && index > count,
    decreases target_args.len(),
{
    if j < target_args.len() - 1 {
        lemma_first_too_large(target_args.drop_last(), count, j);
    } else {
        lemma_too_large_is(target_args.drop_last(), count);
    }
}

/// A placeholder that is found too large is too large.
pub proof fn lemma_too_large_is(target_args: Seq<AliasParamView>, count: nat)
    ensures
        first_too_large(target_args, count) matches Some(index) ==> index > count,
    decreases target_args.len(),
{
    if target_args.len() > 0 {
        lemma_too_large_is(target_args.drop_last(), count);
    }
}

/// A call of an alias one of whose placeholders exceeds the number of the
/// alias's own parameters is refused because the argument does not exist,
/// provided that the number of arguments is right. Nothing is lowered and
/// nothing is written.
pub proof fn lemma_argument_id_too_large(
    scope: Scope,
    depth: nat,
    ops: Seq<OpView>,
    idx: int,
    st: LowerState,
    name: Ident,
    args: Seq<OpRef>,
    j: int,
)
    requires
        0 <= idx < ops.len(),
        ops[idx] == OpView::Call(name, args),
        spec_lookup(scope.env.entries, name) matches Some(func) && args.len() == values_count(
            func.args,
        ) && (func.kind matches FuncKindView::Alias { target_args, .. } && 0 <= j
            < target_args.len() && (target_args[j] matches AliasParamView::Placeholder(index)
            && index > func.args.len())),
    ensures
        spec_lower(scope, depth, ops, idx, st) matches Err((ErrorKind::ArgumentIdTooLarge(index), at))
            && index > spec_lookup(scope.env.entries, name).unwrap().args.len() && at == st,
{
    let func = spec_lookup(scope.env.entries, name).unwrap();
    lemma_first_too_large(func.kind->Alias_target_args, func.args.len(), j);
}

/// A binary operator is lowered after its operands, the left one first: its
/// outcome is that of the operator on the slots of the operands, in the
/// state that lowering the left and then the right operand has left.
pub proof fn lemma_binary_order(
    scope: Scope,
    depth: nat,
    ops: Seq<OpView>,
    idx: int,
    st: LowerState,
    m: Mnemonic,
    left: OpRef,
    right: OpRef,
)
    requires
        0 <= idx < ops.len(),
        ops[idx] == OpView::Binary(m, left, right),
        left.0 < idx,
        right.0 < idx,
        value_of(spec_lower(scope, depth, ops, left.0 as int, st)) is Ok,
        value_of(
            spec_lower(
                scope,
                depth,
                ops,
                right.0 as int,
                value_of(spec_lower(scope, depth, ops, left.0 as int, st))->Ok_0.1,
            ),
        ) is Ok,
    ensures
        ({
            let (l, st1) = value_of(spec_lower(scope, depth, ops, left.0 as int, st))->Ok_0;
            let (r, st2) = value_of(spec_lower(scope, depth, ops, right.0 as int, st1))->Ok_0;
            spec_lower(scope, depth, ops, idx, st) == spec_binary(scope, st2, m, l, r)
        }),
{
}

/// The destination of a binary operator is a fresh slot: no variable started
/// there before, it is neither of the operands, and it has the promoted
/// type. The one line that is written names the opcode for that type, the
/// destination, the left and the right operand.
pub proof fn lemma_binary_destination(scope: Scope, st: LowerState, m: Mnemonic, l: u8, r: u8)
    requires
        frame_wf(st.frame),
        frame_slot(st.frame, l as int) is Some,
        frame_slot(st.frame, r as int) is Some,
        spec_binary(scope, st, m, l, r) is Ok,
    ensures
        ({
            let (slot, after) = spec_binary(scope, st, m, l, r)->Ok_0;
            let t = Type::spec_promote(slot_type(st.frame, l), slot_type(st.frame, r));
            &&& slot matches Some(d)
            &&& d != l
            &&& d != r
            &&& frame_slot(st.frame, d as int) is None
            &&& after.frame == st.frame.push(Variable { name: None, t })
            &&& slot_type(after.frame, d) == t
            &&& slot_type(after.frame, l) == slot_type(st.frame, l)
            &&& slot_type(after.frame, r) == slot_type(st.frame, r)
            &&& spec_opcode(scope, m, t) matches Ok(opcode)
            &&& after.text == st.text + db_line3(
                opcode,
                spec_decimal(d as nat),
                spec_decimal(l as nat),
                spec_decimal(r as nat),
            )
            &&& after.warnings == st.warnings
        }),
{
    let t = Type::spec_promote(slot_type(st.frame, l), slot_type(st.frame, r));
    let added = st.frame.push(Variable { name: None, t });
    lemma_slot_in_frame(st.frame, l as int);
    lemma_slot_in_frame(st.frame, r as int);
    lemma_slot_beyond(st.frame, frame_size(st.frame) as int);
    assert(added.drop_last() =~= st.frame);
}

/// Arguments that have been lowered for the first `k` parameters give `k`
/// slots.
pub proof fn lemma_args_len(
    scope: Scope,
    depth: nat,
    ops: Seq<OpView>,
    idx: int,
    formals: Seq<DefParam>,
    args: Seq<OpRef>,
    ret: Option<u8>,
    k: nat,
    st: LowerState,
)
    requires
        k <= formals.len(),
        spec_args(scope, depth, ops, idx, formals, args, ret, k, st) is Ok,
    ensures
        spec_args(scope, depth, ops, idx, formals, args, ret, k, st)->Ok_0.0.len() == k,
    decreases k,
{
    if k > 0 {
        lemma_args_len(scope, depth, ops, idx, formals, args, ret, (k - 1) as nat, st);
    }
}

/// The arguments from position `first` up to position `k` give one slot
/// each.
pub proof fn lemma_rest_args_len(
    scope: Scope,
    depth: nat,
    ops: Seq<OpView>,
    idx: int,
    args: Seq<OpRef>,
    first: nat,
    k: nat,
    st: LowerState,
)
    requires
        first <= k <= args.len(),
        spec_rest_args(scope, depth, ops, idx, args, first, k, st) is Ok,
    ensures
        spec_rest_args(scope, depth, ops, idx, args, first, k, st)->Ok_0.0.len() == k - first,
    decreases k,
{
    if k > first {
        lemma_rest_args_len(scope, depth, ops, idx, args, first, (k - 1) as nat, st);
    }
}

/// A macro that takes any number of arguments is called with all of them:
/// where every argument can be lowered, the call succeeds, and its line is
/// the macro's text followed by one slot for each parameter and one for each
/// argument behind those that the parameters take. No opcode is looked up for
/// the macro. The call fails only where the macro's text is a handle that
/// the interner does not know; the arguments have been lowered by then.
pub proof fn lemma_varargs_line(
    scope: Scope,
    depth: nat,
    ops: Seq<OpView>,
    idx: int,
    st: LowerState,
    name: Ident,
    args: Seq<OpRef>,
    func: FuncView,
    target: Ident,
)
    requires
        0 <= idx < ops.len(),
        ops[idx] == OpView::Call(name, args),
        spec_lookup(scope.env.entries, name) == Some(func),
        func.kind == (FuncKindView::Macro { target, varargs: true }),
        args.len() >= values_count(func.args),
        spec_return_slot(scope, func.args, st) is Ok,
        spec_args(
            scope,
            depth,
            ops,
            idx,
            func.args,
            args,
            spec_return_slot(scope, func.args, st)->Ok_0.0,
            func.args.len(),
            spec_return_slot(scope, func.args, st)->Ok_0.1,
        ) is Ok,
        spec_rest_args(
            scope,
            depth,
            ops,
            idx,
            args,
            values_count(func.args),
            args.len(),
            spec_args(
                scope,
                depth,
                ops,
                idx,
                func.args,
                args,
                spec_return_slot(scope, func.args, st)->Ok_0.0,
                func.args.len(),
                spec_return_slot(scope, func.args, st)->Ok_0.1,
            )->Ok_0.1,
        ) is Ok,
    ensures
        ({
            let (ret, st1) = spec_return_slot(scope, func.args, st)->Ok_0;
            let (slots, st2) = spec_args(
                scope,
                depth,
                ops,
                idx,
                func.args,
                args,
                ret,
                func.args.len(),
                st1,
            )->Ok_0;
            let (rest, st3) = spec_rest_args(
                scope,
                depth,
                ops,
                idx,
                args,
                values_count(func.args),
                args.len(),
                st2,
            )->Ok_0;
            &&& spec_lower(scope, depth, ops, idx, st) == match name_of(scope.names, target) {
                Some(text) => Ok::<(Option<u8>, LowerState), Failure>(
                    (ret, st_emit(st3, macro_line(text, slots + rest))),
                ),
                None => Err::<(Option<u8>, LowerState), Failure>(
                    (ErrorKind::UnknownIdent(target), st3),
                ),
            }
            &&& slots.len() == func.args.len()
            &&& rest.len() == args.len() - values_count(func.args)
        }),
{
    let (ret, st1) = spec_return_slot(scope, func.args, st)->Ok_0;
    let (slots, st2) = spec_args(scope, depth, ops, idx, func.args, args, ret, func.args.len(), st1)->Ok_0;
    lemma_args_len(scope, depth, ops, idx, func.args, args, ret, func.args.len(), st1);
    lemma_rest_args_len(scope, depth, ops, idx, args, values_count(func.args), args.len(), st2);
}

} // verus!
