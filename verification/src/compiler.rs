//! The compiler: lowering of expressions and statements into a function's
//! frame and assembler text, and the driver that walks a program's
//! declarations.

use crate::diag::{Diagnostic, ErrorKind, Feature, Mnemonic, Warning};
use crate::envs::{declare_env, EnvView, Environment, EnvironmentTable, Func, FuncKind};
use crate::expr::{arena_wf, ops_view, Expr, Op, OpRef};
use crate::ident::{Ident, Interner};
use crate::lower::{
    alias_depth, db_line, db_line2, db_line3, first_too_large, function_header, has_zero_placeholder,
    macro_line, macro_operands_text, mnemonic_text, operands_text, return_param, spec_alias_args,
    spec_args, spec_binary, spec_check_call, spec_compile_function, spec_complement,
    spec_expression, spec_lower, spec_negate, spec_opcode, spec_program, spec_put,
    spec_return_slot, spec_root, spec_roots, spec_set, spec_simple_statement, spec_statement,
    seq_extends, spec_rest_args, spec_statements, value_of, Failure, LowerState, Lowered,
    LoweredSlots, ProgramState, Scope, Stated, Usage,
};
use crate::parsing::{
    alias_params_view, AliasParam, DefParam, DefParamKind, Root, Script, ScriptStatement,
    ScriptStatementKind, SimpleStatement,
};
use crate::text::{decimal, signed_decimal};
use crate::types::{collect_types, Type, TypeTable};
use crate::vars::{
    frame_extends, frame_slot, lemma_extends_slot, lemma_lookup_is_start, lemma_slot_at_start,
    Variable, VariableTable,
};
use vstd::prelude::*;
use vstd::string::*;

verus! {

/// What a function is compiled against: its environment, the program's types
/// and the interner of the program's names.
pub struct Context<'a> {
    pub env: &'a Environment,
    pub types: &'a TypeTable,
    pub idents: &'a Interner,
}

impl<'a> View for Context<'a> {
    type V = Scope;

    open spec fn view(&self) -> Scope {
        Scope { env: self.env@, types: self.types@, names: self.idents@ }
    }
}

impl<'a> Context<'a> {
    pub open spec fn wf(self) -> bool {
        &&& self.env.wf()
        &&& self.types.wf()
        &&& self.idents.wf()
    }
}

/// What the compilation of a function has produced so far: its variables,
/// its assembler text and the warnings.
pub struct Lowering {
    pub vtable: VariableTable,
    pub out: String,
    pub warnings: Vec<Warning>,
}

impl View for Lowering {
    type V = LowerState;

    open spec fn view(&self) -> LowerState {
        LowerState { frame: self.vtable@, text: self.out@, warnings: self.warnings@ }
    }
}

impl Lowering {
    pub open spec fn wf(self) -> bool {
        self.vtable.wf()
    }

    /// The state before anything is compiled: no variables, no text, no
    /// warnings.
    pub fn new() -> (res: Lowering)
        ensures
            res.wf(),
            res@.frame == Seq::<Variable>::empty(),
            res@.text == Seq::<char>::empty(),
            res@.warnings == Seq::<Warning>::empty(),
    {
        Lowering { vtable: VariableTable::new(), out: String::new(), warnings: Vec::new() }
    }
}

/// The state is the one that a definition gives.
pub open spec fn state_is(after: LowerState, st: LowerState) -> bool {
    &&& after.frame == st.frame
    &&& after.text == st.text
    &&& after.warnings == st.warnings
}

/// Whatever was there before is still there: every variable at its address
/// with its type and name, the text and the warnings with more behind them
/// at most. This holds after a success and after a failure alike.
pub open spec fn state_kept(before: LowerState, after: LowerState) -> bool {
    &&& frame_extends(before.frame, after.frame)
    &&& seq_extends(before.text, after.text)
    &&& seq_extends(before.warnings, after.warnings)
}

/// The result and the state after it are those that the lowering's
/// definition gives, after a success and after a failure. What was there
/// before is kept, and the slot of the value is the start of a variable.
pub open spec fn lowered_as(
    before: LowerState,
    after: LowerState,
    res: Result<Option<u8>, ErrorKind>,
    spec: Lowered,
) -> bool {
    &&& state_kept(before, after)
    &&& match spec {
        Ok((slot, st)) => {
            &&& res == Ok::<Option<u8>, ErrorKind>(slot)
            &&& state_is(after, st)
            &&& slot matches Some(a) ==> frame_slot(after.frame, a as int) is Some
        },
        Err((e, st)) => res == Err::<Option<u8>, ErrorKind>(e) && state_is(after, st),
    }
}

/// The same for a list of slots.
pub open spec fn slots_as(
    before: LowerState,
    after: LowerState,
    res: Result<Vec<u8>, ErrorKind>,
    spec: LoweredSlots,
) -> bool {
    &&& state_kept(before, after)
    &&& match spec {
        Ok((slots, st)) => {
            &&& res is Ok
            &&& res.unwrap()@ == slots
            &&& state_is(after, st)
        },
        Err((e, st)) => res == Err::<Vec<u8>, ErrorKind>(e) && state_is(after, st),
    }
}

/// The family name of an opcode.
pub fn mnemonic_str(m: Mnemonic) -> (res: &'static str)
    ensures
        res@ == mnemonic_text(m),
{
    match m {
        Mnemonic::Put => "put",
        Mnemonic::Mov => "mov",
        Mnemonic::Mul => "mul",
        Mnemonic::Div => "div",
        Mnemonic::Mod => "mod",
        Mnemonic::Add => "add",
        Mnemonic::Sub => "sub",
        Mnemonic::Shl => "shl",
        Mnemonic::Shr => "shr",
        Mnemonic::Band => "band",
        Mnemonic::Bxor => "bxor",
        Mnemonic::Bor => "bor",
        Mnemonic::Equ => "equ",
        Mnemonic::Nequ => "nequ",
        Mnemonic::Lt => "lt",
        Mnemonic::Gt => "gt",
        Mnemonic::Lte => "lte",
        Mnemonic::Gte => "gte",
        Mnemonic::Land => "land",
        Mnemonic::Lor => "lor",
    }
}

/// The name of the opcode of a family for a type, such as `add_u8`.
pub fn opcode_name_string(m: Mnemonic, t: Type) -> (res: String)
    ensures
        res@ == crate::lower::opcode_name(m, t),
{
    proof {
        reveal_strlit("_");
        assert("_"@ =~= seq!['_']);
    }
    let mut name = String::from_str(mnemonic_str(m));
    name.append("_");
    let suffix = t.text();
    name.append(suffix.as_str());
    name
}

/// The assembler's name for the opcode of a family for a type: the opcode's
/// name is put together, looked up among the interned names and expanded in
/// the environment.
pub fn opcode(cx: &Context, m: Mnemonic, t: Type) -> (res: Result<String, ErrorKind>)
    requires
        cx.wf(),
    ensures
        match spec_opcode(cx@, m, t) {
            Ok(text) => res is Ok && res.unwrap()@ == text,
            Err(e) => res == Err::<String, ErrorKind>(e),
        },
{
    let name = opcode_name_string(m, t);
    match cx.idents.get(name.as_str()) {
        None => Err(ErrorKind::MissingOpcode(m, t)),
        Some(id) => cx.env.expand(id, cx.idents),
    }
}

fn line2(opcode: &str, a: &str, b: &str) -> (res: String)
    ensures
        res@ == db_line2(opcode@, a@, b@),
{
    let mut line = String::from_str("\tdb ");
    line.append(opcode);
    line.append(", ");
    line.append(a);
    line.append(", ");
    line.append(b);
    line.append("\n");
    line
}

fn line3(opcode: &str, a: &str, b: &str, c: &str) -> (res: String)
    ensures
        res@ == db_line3(opcode@, a@, b@, c@),
{
    let mut line = String::from_str("\tdb ");
    line.append(opcode);
    line.append(", ");
    line.append(a);
    line.append(", ");
    line.append(b);
    line.append(", ");
    line.append(c);
    line.append("\n");
    line
}

fn line_of_slots(opcode: &str, slots: &Vec<u8>) -> (res: String)
    ensures
        res@ == db_line(opcode@, slots@),
{
    let mut line = String::from_str("\tdb ");
    line.append(opcode);
    let mut i: usize = 0;
    while i < slots.len()
        invariant
            i <= slots.len(),
            line@ == "\tdb "@ + opcode@ + operands_text(slots@.take(i as int)),
        decreases slots.len() - i,
    {
        let number = decimal(slots[i] as u64);
        proof {
            assert(slots@.take(i + 1).drop_last() =~= slots@.take(i as int));
            assert(slots@.take(i + 1).last() == slots@[i as int]);
            let head = "\tdb "@ + opcode@;
            let done = operands_text(slots@.take(i as int));
            assert((head + done) + ", "@ + number@ =~= head + (done + ", "@ + number@));
        }
        line.append(", ");
        line.append(number.as_str());
        i += 1;
    }
    proof {
        assert(slots@.take(slots.len() as int) =~= slots@);
    }
    line.append("\n");
    line
}

fn macro_line_of_slots(target: &str, slots: &Vec<u8>) -> (res: String)
    ensures
        res@ == macro_line(target@, slots@),
{
    let mut line = String::from_str("\t");
    line.append(target);
    let mut i: usize = 0;
    while i < slots.len()
        invariant
            i <= slots.len(),
            line@ == "\t"@ + target@ + macro_operands_text(slots@.take(i as int)),
        decreases slots.len() - i,
    {
        let number = decimal(slots[i] as u64);
        proof {
            assert(slots@.take(i + 1).drop_last() =~= slots@.take(i as int));
            assert(slots@.take(i + 1).last() == slots@[i as int]);
            let head = "\t"@ + target@;
            let done = macro_operands_text(slots@.take(i as int));
            assert((head + done) + " "@ + number@ + ","@ =~= head + (done + " "@ + number@ + ","@));
        }
        line.append(" ");
        line.append(number.as_str());
        line.append(",");
        i += 1;
    }
    proof {
        assert(slots@.take(slots.len() as int) =~= slots@);
    }
    line.append("\n");
    line
}

/// Lowers a constant of type `t` whose text is `value`: allocates its slot
/// and emits the `put`.
pub fn put(cx: &Context, st: &mut Lowering, t: Type, value: &str) -> (res: Result<
    Option<u8>,
    ErrorKind,
>)
    requires
        cx.wf(),
        old(st).wf(),
        t.wf(),
    ensures
        final(st).wf(),
        lowered_as(old(st)@, final(st)@, res, spec_put(cx@, old(st)@, t, value@)),
{
    let slot = match st.vtable.allocate(t) {
        Ok(slot) => slot,
        Err(e) => {
            return Err(e);
        },
    };
    proof {
        lemma_slot_at_start(st.vtable@, st.vtable@.len() - 1);
        assert(st.vtable@.take(st.vtable@.len() - 1) =~= old(st).vtable@);
    }
    let name = match opcode(cx, Mnemonic::Put, t) {
        Ok(name) => name,
        Err(e) => {
            return Err(e);
        },
    };
    let number = decimal(slot as u64);
    let line = line2(name.as_str(), number.as_str(), value);
    st.out.append(line.as_str());
    Ok(Some(slot))
}

/// Lowers a binary operator on the slots `l` and `r`.
pub fn binary(cx: &Context, st: &mut Lowering, m: Mnemonic, l: u8, r: u8) -> (res: Result<
    Option<u8>,
    ErrorKind,
>)
    requires
        cx.wf(),
        old(st).wf(),
        frame_slot(old(st)@.frame, l as int) is Some,
        frame_slot(old(st)@.frame, r as int) is Some,
    ensures
        final(st).wf(),
        lowered_as(old(st)@, final(st)@, res, spec_binary(cx@, old(st)@, m, l, r)),
{
    proof {
        crate::vars::lemma_slot_in_frame(st.vtable@, l as int);
        crate::vars::lemma_slot_in_frame(st.vtable@, r as int);
    }
    let t = Type::promote(st.vtable.type_of(l), st.vtable.type_of(r));
    let slot = match st.vtable.allocate(t) {
        Ok(slot) => slot,
        Err(e) => {
            return Err(e);
        },
    };
    proof {
        lemma_slot_at_start(st.vtable@, st.vtable@.len() - 1);
        assert(st.vtable@.take(st.vtable@.len() - 1) =~= old(st).vtable@);
    }
    let name = match opcode(cx, m, t) {
        Ok(name) => name,
        Err(e) => {
            return Err(e);
        },
    };
    let line = line3(
        name.as_str(),
        decimal(slot as u64).as_str(),
        decimal(l as u64).as_str(),
        decimal(r as u64).as_str(),
    );
    st.out.append(line.as_str());
    Ok(Some(slot))
}

/// Lowers the negation or the complement of the slot `x`: a constant goes
/// into a first new slot, and the result of the operator on the constant and
/// the operand into a second one. For the negation the constant is zero and
/// the operand is subtracted from it; for the complement the constant is all
/// ones and the operand is combined with it by exclusive or.
fn unary(cx: &Context, st: &mut Lowering, negate: bool, x: u8) -> (res: Result<
    Option<u8>,
    ErrorKind,
>)
    requires
        cx.wf(),
        old(st).wf(),
        frame_slot(old(st)@.frame, x as int) is Some,
    ensures
        final(st).wf(),
        lowered_as(
            old(st)@,
            final(st)@,
            res,
            if negate {
                spec_negate(cx@, old(st)@, x)
            } else {
                spec_complement(cx@, old(st)@, x)
            },
        ),
{
    proof {
        crate::vars::lemma_slot_in_frame(st.vtable@, x as int);
    }
    let t = st.vtable.type_of(x);
    let constant = match st.vtable.allocate(t) {
        Ok(slot) => slot,
        Err(e) => {
            return Err(e);
        },
    };
    let slot = match st.vtable.allocate(t) {
        Ok(slot) => slot,
        Err(e) => {
            return Err(e);
        },
    };
    proof {
        lemma_slot_at_start(st.vtable@, st.vtable@.len() - 1);
        assert(st.vtable@.take(st.vtable@.len() - 1) =~= old(st).vtable@.push(
            Variable { name: None, t },
        ));
    }
    let put_name = match opcode(cx, Mnemonic::Put, t) {
        Ok(name) => name,
        Err(e) => {
            return Err(e);
        },
    };
    let name = match opcode(cx, if negate { Mnemonic::Sub } else { Mnemonic::Bxor }, t) {
        Ok(name) => name,
        Err(e) => {
            return Err(e);
        },
    };
    let constant_text = decimal(constant as u64);
    let slot_text = decimal(slot as u64);
    let operand_text = decimal(x as u64);
    if negate {
        let first = line2(put_name.as_str(), constant_text.as_str(), "0");
        st.out.append(first.as_str());
        let second = line3(
            name.as_str(),
            slot_text.as_str(),
            constant_text.as_str(),
            operand_text.as_str(),
        );
        st.out.append(second.as_str());
    } else {
        let first = line2(put_name.as_str(), constant_text.as_str(), "$FF");
        st.out.append(first.as_str());
        let second = line3(
            name.as_str(),
            slot_text.as_str(),
            operand_text.as_str(),
            constant_text.as_str(),
        );
        st.out.append(second.as_str());
    }
    Ok(Some(slot))
}

/// Counts the parameters that take a value from the caller.
pub fn count_values(args: &Vec<DefParam>) -> (res: usize)
    ensures
        res == crate::envs::values_count(args@),
{
    let mut count: usize = 0;
    let mut i: usize = 0;
    while i < args.len()
        invariant
            i <= args.len(),
            count <= i,
            count == crate::envs::values_count(args@.take(i as int)),
        decreases args.len() - i,
    {
        proof {
            assert(args@.take(i + 1).drop_last() =~= args@.take(i as int));
            assert(args@.take(i + 1).last() == args@[i as int]);
        }
        if !is_return(&args[i]) {
            count += 1;
        }
        i += 1;
    }
    proof {
        assert(args@.take(args.len() as int) =~= args@);
    }
    count
}

/// Whether the parameter is the place for the function's result.
pub fn is_return(param: &DefParam) -> (res: bool)
    ensures
        res == (param.kind == DefParamKind::Return),
{
    match param.kind {
        DefParamKind::Return => true,
        _ => false,
    }
}

/// Checks a call against its callee before anything is lowered: too many
/// arguments are refused unless the callee is a macro that takes any number,
/// too few are always refused, and an alias must not pass on an argument that
/// it does not have.
#[verifier::loop_isolation(false)]
#[verifier::rlimit(50)]
pub fn check_call(func: &Func, argc: usize) -> (res: Result<(), ErrorKind>)
    ensures
        res == spec_check_call(func@, argc as nat),
{
    let count = count_values(&func.args);
    let varargs = match &func.kind {
        FuncKind::Macro { varargs, .. } => *varargs,
        _ => false,
    };
    if argc > count && !varargs {
        return Err(ErrorKind::TooManyArguments);
    }
    if argc < count {
        return Err(ErrorKind::NotEnoughArguments);
    }
    match &func.kind {
        FuncKind::Alias { target_args, .. } => {
            let ghost views = alias_params_view(target_args@);
            let limit = func.args.len();
            let mut saw_zero = false;
            let mut k: usize = 0;
            while k < target_args.len()
                invariant
                    k <= target_args.len(),
                    views == alias_params_view(target_args@),
                    limit == func.args@.len(),
                    first_too_large(views.take(k as int), limit as nat) is None,
                    saw_zero == has_zero_placeholder(views.take(k as int)),
                decreases target_args.len() - k,
            {
                proof {
                    assert(views.take(k + 1).drop_last() =~= views.take(k as int));
                    assert(views.take(k + 1).last() == views[k as int]);
                    assert(views[k as int] == target_args@[k as int]@);
                }
                match &target_args[k] {
                    AliasParam::Placeholder(index) => {
                        if *index > limit {
                            proof {
                                lemma_too_large_prefix(views, limit as nat, k + 1);
                            }
                            return Err(ErrorKind::ArgumentIdTooLarge(*index));
                        }
                        if *index == 0 {
                            saw_zero = true;
                        }
                    },
                    AliasParam::Expr { .. } => {},
                }
                proof {
                    let before = views.take(k as int);
                    let after = views.take(k + 1);
                    if has_zero_placeholder(before) {
                        let j = choose|j: int|
                            0 <= j < before.len() && (#[trigger] before[j])
                                == crate::parsing::AliasParamView::Placeholder(0);
                        assert(after[j] == before[j]);
                    }
                    if has_zero_placeholder(after) && !saw_zero {
                        let j = choose|j: int|
                            0 <= j < after.len() && (#[trigger] after[j])
                                == crate::parsing::AliasParamView::Placeholder(0);
                        if j < k {
                            assert(before[j] == after[j]);
                        }
                    }
                    if saw_zero && !has_zero_placeholder(before) {
                        assert(after[k as int] == crate::parsing::AliasParamView::Placeholder(0));
                    }
                }
                k += 1;
            }
            proof {
                assert(views.take(target_args.len() as int) =~= views);
            }
            if saw_zero {
                Err(ErrorKind::ArgumentIdZero)
            } else {
                Ok(())
            }
        },
        _ => Ok(()),
    }
}

/// A placeholder that is too large among the first arguments of an alias is
/// the first such among all of them.
pub proof fn lemma_too_large_prefix(
    target_args: Seq<crate::parsing::AliasParamView>,
    count: nat,
    k: int,
)
    requires
        0 <= k <= target_args.len(),
        first_too_large(target_args.take(k), count) is Some,
    ensures
        first_too_large(target_args, count) == first_too_large(target_args.take(k), count),
    decreases target_args.len(),
{
    if k == target_args.len() {
        assert(target_args.take(k) =~= target_args);
    } else {
        assert(target_args.drop_last().take(k) =~= target_args.take(k));
        lemma_too_large_prefix(target_args.drop_last(), count, k);
    }
}

/// Finds the type name of the return parameter, if there is one.
pub fn find_return_param(formals: &Vec<DefParam>) -> (res: Option<Ident>)
    ensures
        res == return_param(formals@),
{
    let mut i: usize = 0;
    while i < formals.len()
        invariant
            i <= formals.len(),
            return_param(formals@.take(i as int)) is None,
        decreases formals.len() - i,
    {
        proof {
            assert(formals@.take(i + 1).drop_last() =~= formals@.take(i as int));
            assert(formals@.take(i + 1).last() == formals@[i as int]);
        }
        if is_return(&formals[i]) {
            proof {
                lemma_return_param_prefix(formals@, i + 1);
            }
            return Some(formals[i].name);
        }
        i += 1;
    }
    proof {
        assert(formals@.take(formals.len() as int) =~= formals@);
    }
    None
}

/// A return parameter among the first parameters is the first among all.
pub proof fn lemma_return_param_prefix(formals: Seq<DefParam>, k: int)
    requires
        0 <= k <= formals.len(),
        return_param(formals.take(k)) is Some,
    ensures
        return_param(formals) == return_param(formals.take(k)),
    decreases formals.len(),
{
    if k == formals.len() {
        assert(formals.take(k) =~= formals);
    } else {
        assert(formals.drop_last().take(k) =~= formals.take(k));
        lemma_return_param_prefix(formals.drop_last(), k);
    }
}

/// Allocates the slot for a call's result where the callee returns one.
pub fn return_slot(cx: &Context, formals: &Vec<DefParam>, st: &mut Lowering) -> (res: Result<
    Option<u8>,
    ErrorKind,
>)
    requires
        cx.wf(),
        old(st).wf(),
    ensures
        final(st).wf(),
        lowered_as(old(st)@, final(st)@, res, spec_return_slot(cx@, formals@, old(st)@)),
{
    match find_return_param(formals) {
        None => Ok(None),
        Some(declared) => {
            let t = match cx.types.lookup(declared) {
                Ok(t) => t,
                Err(e) => {
                    return Err(e);
                },
            };
            match st.vtable.allocate(t) {
                Ok(slot) => {
                    proof {
                        lemma_slot_at_start(st.vtable@, st.vtable@.len() - 1);
                        assert(st.vtable@.take(st.vtable@.len() - 1) =~= old(st).vtable@);
                    }
                    Ok(Some(slot))
                },
                Err(e) => Err(e),
            }
        },
    }
}

/// The slot and the state after it are those that the definition gives for an
/// operand, which must have a value.
pub open spec fn value_as(
    before: LowerState,
    after: LowerState,
    res: Result<u8, ErrorKind>,
    spec: Result<(u8, LowerState), Failure>,
) -> bool {
    &&& state_kept(before, after)
    &&& match spec {
        Ok((a, st)) => {
            &&& res == Ok::<u8, ErrorKind>(a)
            &&& state_is(after, st)
            &&& frame_slot(after.frame, a as int) is Some
        },
        Err((e, st)) => res == Err::<u8, ErrorKind>(e) && state_is(after, st),
    }
}

/// Once an argument has failed, the arguments behind it are not looked at.
pub proof fn lemma_args_fail(
    scope: Scope,
    depth: nat,
    ops: Seq<crate::expr::OpView>,
    idx: int,
    formals: Seq<DefParam>,
    args: Seq<OpRef>,
    ret: Option<u8>,
    k: nat,
    n: nat,
    st: LowerState,
)
    requires
        k <= n <= formals.len(),
        spec_args(scope, depth, ops, idx, formals, args, ret, k, st) is Err,
    ensures
        spec_args(scope, depth, ops, idx, formals, args, ret, n, st) == spec_args(
            scope,
            depth,
            ops,
            idx,
            formals,
            args,
            ret,
            k,
            st,
        ),
    decreases n,
{
    if k < n {
        lemma_args_fail(scope, depth, ops, idx, formals, args, ret, k, (n - 1) as nat, st);
    }
}

/// Once an argument of an alias has failed, those behind it are not looked at.
pub proof fn lemma_alias_args_fail(
    scope: Scope,
    depth: nat,
    target_args: Seq<crate::parsing::AliasParamView>,
    slots: Seq<u8>,
    k: nat,
    n: nat,
    st: LowerState,
)
    requires
        k <= n <= target_args.len(),
        spec_alias_args(scope, depth, target_args, slots, k, st) is Err,
    ensures
        spec_alias_args(scope, depth, target_args, slots, n, st) == spec_alias_args(
            scope,
            depth,
            target_args,
            slots,
            k,
            st,
        ),
    decreases n,
{
    if k < n {
        lemma_alias_args_fail(scope, depth, target_args, slots, k, (n - 1) as nat, st);
    }
}

/// Lowers the operation at position `idx` as an operand: it must have a
/// value.
fn lower_value(cx: &Context, depth: usize, ops: &Vec<Op>, idx: usize, st: &mut Lowering) -> (res:
    Result<u8, ErrorKind>)
    requires
        cx.wf(),
        old(st).wf(),
        arena_wf(ops_view(ops@)),
        idx < ops.len(),
    ensures
        final(st).wf(),
        value_as(
            old(st)@,
            final(st)@,
            res,
            value_of(spec_lower(cx@, depth as nat, ops_view(ops@), idx as int, old(st)@)),
        ),
    decreases depth, idx, 2nat, 0nat,
{
    match lower_node(cx, depth, ops, idx, st) {
        Err(e) => Err(e),
        Ok(None) => Err(ErrorKind::NoReturnValue),
        Ok(Some(a)) => Ok(a),
    }
}

/// Lowers the operation at position `idx` of an arena.
#[verifier::rlimit(50)]
fn lower_node(cx: &Context, depth: usize, ops: &Vec<Op>, idx: usize, st: &mut Lowering) -> (res:
    Result<Option<u8>, ErrorKind>)
    requires
        cx.wf(),
        old(st).wf(),
        arena_wf(ops_view(ops@)),
        idx < ops.len(),
    ensures
        final(st).wf(),
        lowered_as(
            old(st)@,
            final(st)@,
            res,
            spec_lower(cx@, depth as nat, ops_view(ops@), idx as int, old(st)@),
        ),
    decreases depth, idx, 1nat, 0nat,
{
    proof {
        assert(ops_view(ops@)[idx as int] == ops@[idx as int]@);
        assert(crate::expr::refs_below(ops_view(ops@)[idx as int], idx as int));
    }
    match &ops[idx] {
        Op::Number(n) => {
            let value = signed_decimal(*n);
            put(cx, st, Type { signed: false, size: 1 }, value.as_str())
        },
        Op::String(_) => Err(ErrorKind::NotYetSupported(Feature::StringLiteral)),
        Op::Variable(name) => match st.vtable.lookup(*name) {
            Ok(a) => {
                proof {
                    lemma_lookup_is_start(st.vtable@, *name);
                }
                Ok(Some(a))
            },
            Err(e) => Err(e),
        },
        Op::Address(_) => Err(ErrorKind::NotYetSupported(Feature::Pointers)),
        Op::Deref(_) => Err(ErrorKind::NotYetSupported(Feature::Pointers)),
        Op::Neg(x) => {
            let operand = match lower_value(cx, depth, ops, x.0, st) {
                Ok(a) => a,
                Err(e) => {
                    return Err(e);
                },
            };
            unary(cx, st, true, operand)
        },
        Op::Cpl(x) => {
            let operand = match lower_value(cx, depth, ops, x.0, st) {
                Ok(a) => a,
                Err(e) => {
                    return Err(e);
                },
            };
            unary(cx, st, false, operand)
        },
        Op::Call(name, args) => lower_call(cx, depth, ops, idx, *name, args, st),
        _ => {
            match ops[idx].binary_parts() {
                None => vstd::pervasive::unreached(),
                Some((m, l, r)) => {
                    let left = match lower_value(cx, depth, ops, l.0, st) {
                        Ok(a) => a,
                        Err(e) => {
                            return Err(e);
                        },
                    };
                    let ghost mid = st@;
                    let right = match lower_value(cx, depth, ops, r.0, st) {
                        Ok(a) => a,
                        Err(e) => {
                            return Err(e);
                        },
                    };
                    proof {
                        lemma_extends_slot(mid.frame, st@.frame, left as int);
                    }
                    binary(cx, st, m, left, right)
                },
            }
        },
    }
}

/// Lowers the call at position `idx`: the callee is looked up and checked,
/// the slot for the result is allocated, the arguments are lowered, and the
/// instruction or the macro's text is emitted.
#[verifier::rlimit(50)]
fn lower_call(
    cx: &Context,
    depth: usize,
    ops: &Vec<Op>,
    idx: usize,
    name: Ident,
    args: &Vec<OpRef>,
    st: &mut Lowering,
) -> (res: Result<Option<u8>, ErrorKind>)
    requires
        cx.wf(),
        old(st).wf(),
        arena_wf(ops_view(ops@)),
        idx < ops.len(),
        ops_view(ops@)[idx as int] == crate::expr::OpView::Call(name, args@),
    ensures
        final(st).wf(),
        lowered_as(
            old(st)@,
            final(st)@,
            res,
            spec_lower(cx@, depth as nat, ops_view(ops@), idx as int, old(st)@),
        ),
    decreases depth, idx, 0nat, 1nat,
{
    let func = match cx.env.lookup(name) {
        Ok(func) => func,
        Err(e) => {
            return Err(e);
        },
    };
    match check_call(func, args.len()) {
        Ok(()) => {},
        Err(e) => {
            return Err(e);
        },
    }
    let ret = match return_slot(cx, &func.args, st) {
        Ok(ret) => ret,
        Err(e) => {
            return Err(e);
        },
    };
    let ghost st1 = st@;
    let slots = match lower_args(cx, depth, ops, idx, &func.args, args, ret, st) {
        Ok(slots) => slots,
        Err(e) => {
            return Err(e);
        },
    };
    let ghost st2 = st@;
    match &func.kind {
        FuncKind::Normal { .. } => {
            let name_text = match cx.env.expand(name, cx.idents) {
                Ok(text) => text,
                Err(e) => {
                    return Err(e);
                },
            };
            let line = line_of_slots(name_text.as_str(), &slots);
            st.out.append(line.as_str());
        },
        FuncKind::Alias { target_args, .. } => {
            let passed = match lower_alias_args(cx, depth, target_args, &slots, st) {
                Ok(passed) => passed,
                Err(e) => {
                    return Err(e);
                },
            };
            let name_text = match cx.env.expand(name, cx.idents) {
                Ok(text) => text,
                Err(e) => {
                    return Err(e);
                },
            };
            let line = line_of_slots(name_text.as_str(), &passed);
            st.out.append(line.as_str());
        },
        FuncKind::Macro { target, .. } => {
            let mut slots = slots;
            let mut rest = match lower_rest_args(
                cx,
                depth,
                ops,
                idx,
                args,
                count_values(&func.args),
                st,
            ) {
                Ok(rest) => rest,
                Err(e) => {
                    return Err(e);
                },
            };
            let text = match cx.idents.resolve(*target) {
                Some(text) => text,
                None => {
                    return Err(ErrorKind::UnknownIdent(*target));
                },
            };
            slots.append(&mut rest);
            let line = macro_line_of_slots(text, &slots);
            st.out.append(line.as_str());
        },
    }
    proof {
        if let Some(a) = ret {
            lemma_extends_slot(st1.frame, st@.frame, a as int);
        }
    }
    Ok(ret)
}

/// Lowers the arguments of the call at position `idx` in the order of the
/// callee's parameters.
#[verifier::loop_isolation(false)]
#[verifier::rlimit(50)]
fn lower_args(
    cx: &Context,
    depth: usize,
    ops: &Vec<Op>,
    idx: usize,
    formals: &Vec<DefParam>,
    args: &Vec<OpRef>,
    ret: Option<u8>,
    st: &mut Lowering,
) -> (res: Result<Vec<u8>, ErrorKind>)
    requires
        cx.wf(),
        old(st).wf(),
        arena_wf(ops_view(ops@)),
        idx < ops.len(),
    ensures
        final(st).wf(),
        slots_as(
            old(st)@,
            final(st)@,
            res,
            spec_args(
                cx@,
                depth as nat,
                ops_view(ops@),
                idx as int,
                formals@,
                args@,
                ret,
                formals@.len(),
                old(st)@,
            ),
        ),
    decreases depth, idx, 0nat, 0nat,
{
    let ghost st0 = st@;
    let ghost view = ops_view(ops@);
    let mut slots: Vec<u8> = Vec::new();
    let mut j: usize = 0;
    let mut k: usize = 0;
    while k < formals.len()
        invariant
            k <= formals.len(),
            j <= k,
            j == crate::envs::values_count(formals@.take(k as int)),
            st.wf(),
            state_kept(st0, st@),
            spec_args(cx@, depth as nat, view, idx as int, formals@, args@, ret, k as nat, st0)
                matches Ok((s, stk)) && s == slots@ && state_is(st@, stk),
        decreases formals.len() - k,
    {
        let formal = formals[k];
        proof {
            assert(formals@.take(k + 1).drop_last() =~= formals@.take(k as int));
            assert(formals@.take(k + 1).last() == formals@[k as int]);
        }
        let ghost stk = st@;
        if is_return(&formal) {
            match ret {
                Some(a) => {
                    slots.push(a);
                },
                None => {
                    proof {
                        lemma_args_fail(
                            cx@,
                            depth as nat,
                            view,
                            idx as int,
                            formals@,
                            args@,
                            ret,
                            (k + 1) as nat,
                            formals@.len(),
                            st0,
                        );
                    }
                    return Err(ErrorKind::NoReturnValue);
                },
            }
        } else {
            if j >= args.len() || args[j].0 >= idx {
                proof {
                    lemma_args_fail(
                        cx@,
                        depth as nat,
                        view,
                        idx as int,
                        formals@,
                        args@,
                        ret,
                        (k + 1) as nat,
                        formals@.len(),
                        st0,
                    );
                }
                return Err(ErrorKind::NotEnoughArguments);
            }
            let a = match lower_value(cx, depth, ops, args[j].0, st) {
                Ok(a) => a,
                Err(e) => {
                    proof {
                        lemma_args_fail(
                            cx@,
                            depth as nat,
                            view,
                            idx as int,
                            formals@,
                            args@,
                            ret,
                            (k + 1) as nat,
                            formals@.len(),
                            st0,
                        );
                    }
                    return Err(e);
                },
            };
            let t = match cx.types.lookup(formal.name) {
                Ok(t) => t,
                Err(e) => {
                    proof {
                        lemma_args_fail(
                            cx@,
                            depth as nat,
                            view,
                            idx as int,
                            formals@,
                            args@,
                            ret,
                            (k + 1) as nat,
                            formals@.len(),
                            st0,
                        );
                    }
                    return Err(e);
                },
            };
            if t != st.vtable.type_of(a) {
                st.warnings.push(Warning::ArgumentTypeMismatch);
            }
            slots.push(a);
            j += 1;
        }
        k += 1;
    }
    Ok(slots)
}

/// Once a further argument has failed, those behind it are not looked at.
pub proof fn lemma_rest_args_fail(
    scope: Scope,
    depth: nat,
    ops: Seq<crate::expr::OpView>,
    idx: int,
    args: Seq<OpRef>,
    first: nat,
    k: nat,
    n: nat,
    st: LowerState,
)
    requires
        k <= n <= args.len(),
        spec_rest_args(scope, depth, ops, idx, args, first, k, st) is Err,
    ensures
        spec_rest_args(scope, depth, ops, idx, args, first, n, st) == spec_rest_args(
            scope,
            depth,
            ops,
            idx,
            args,
            first,
            k,
            st,
        ),
    decreases n,
{
    if k < n {
        lemma_rest_args_fail(scope, depth, ops, idx, args, first, k, (n - 1) as nat, st);
    }
}

/// Lowers the arguments of the call at position `idx` from the one at
/// position `first` on, in their order: the arguments of a macro behind
/// those that its parameters take.
#[verifier::rlimit(50)]
#[verifier::loop_isolation(false)]
fn lower_rest_args(
    cx: &Context,
    depth: usize,
    ops: &Vec<Op>,
    idx: usize,
    args: &Vec<OpRef>,
    first: usize,
    st: &mut Lowering,
) -> (res: Result<Vec<u8>, ErrorKind>)
    requires
        cx.wf(),
        old(st).wf(),
        arena_wf(ops_view(ops@)),
        idx < ops.len(),
    ensures
        final(st).wf(),
        slots_as(
            old(st)@,
            final(st)@,
            res,
            spec_rest_args(
                cx@,
                depth as nat,
                ops_view(ops@),
                idx as int,
                args@,
                first as nat,
                args@.len(),
                old(st)@,
            ),
        ),
    decreases depth, idx, 0nat, 0nat,
{
    let ghost st0 = st@;
    let ghost view = ops_view(ops@);
    let mut slots: Vec<u8> = Vec::new();
    if first >= args.len() {
        return Ok(slots);
    }
    let mut k: usize = first;
    while k < args.len()
        invariant
            first <= k <= args.len(),
            st.wf(),
            state_kept(st0, st@),
            spec_rest_args(cx@, depth as nat, view, idx as int, args@, first as nat, k as nat, st0)
                matches Ok((s, stk)) && s == slots@ && state_is(st@, stk),
        decreases args.len() - k,
    {
        if args[k].0 >= idx {
            proof {
                lemma_rest_args_fail(
                    cx@,
                    depth as nat,
                    view,
                    idx as int,
                    args@,
                    first as nat,
                    (k + 1) as nat,
                    args@.len(),
                    st0,
                );
            }
            return Err(ErrorKind::NoReturnValue);
        }
        let a = match lower_value(cx, depth, ops, args[k].0, st) {
            Ok(a) => a,
            Err(e) => {
                proof {
                    lemma_rest_args_fail(
                        cx@,
                        depth as nat,
                        view,
                        idx as int,
                        args@,
                        first as nat,
                        (k + 1) as nat,
                        args@.len(),
                        st0,
                    );
                }
                return Err(e);
            },
        };
        slots.push(a);
        k += 1;
    }
    Ok(slots)
}

/// Collects what an alias hands to its target: the slots of its own
/// arguments for the placeholders, and the slots of the expressions, which
/// are lowered here.
#[verifier::loop_isolation(false)]
#[verifier::rlimit(50)]
fn lower_alias_args(
    cx: &Context,
    depth: usize,
    target_args: &Vec<AliasParam>,
    slots: &Vec<u8>,
    st: &mut Lowering,
) -> (res: Result<Vec<u8>, ErrorKind>)
    requires
        cx.wf(),
        old(st).wf(),
    ensures
        final(st).wf(),
        slots_as(
            old(st)@,
            final(st)@,
            res,
            spec_alias_args(
                cx@,
                depth as nat,
                alias_params_view(target_args@),
                slots@,
                target_args@.len(),
                old(st)@,
            ),
        ),
    decreases depth, 0int, 0nat, 0nat,
{
    let ghost st0 = st@;
    let ghost views = alias_params_view(target_args@);
    let mut passed: Vec<u8> = Vec::new();
    let mut k: usize = 0;
    while k < target_args.len()
        invariant
            k <= target_args.len(),
            st.wf(),
            state_kept(st0, st@),
            spec_alias_args(cx@, depth as nat, views, slots@, k as nat, st0) matches Ok((s, stk))
                && s == passed@ && state_is(st@, stk),
        decreases target_args.len() - k,
    {
        proof {
            assert(views[k as int] == target_args@[k as int]@);
        }
        match &target_args[k] {
            AliasParam::Placeholder(index) => {
                if 1 <= *index && *index <= slots.len() {
                    passed.push(slots[*index - 1]);
                } else {
                    proof {
                        lemma_alias_args_fail(
                            cx@,
                            depth as nat,
                            views,
                            slots@,
                            (k + 1) as nat,
                            views.len(),
                            st0,
                        );
                    }
                    if *index == 0 {
                        return Err(ErrorKind::ArgumentIdZero);
                    }
                    return Err(ErrorKind::ArgumentIdTooLarge(*index));
                }
            },
            AliasParam::Expr { expr, .. } => {
                if depth == 0 {
                    proof {
                        lemma_alias_args_fail(
                            cx@,
                            depth as nat,
                            views,
                            slots@,
                            (k + 1) as nat,
                            views.len(),
                            st0,
                        );
                    }
                    return Err(ErrorKind::AliasArgumentCycle);
                }
                proof {
                    use_type_invariant(expr);
                }
                let inner = expr.ops();
                let a = match lower_value(cx, depth - 1, inner, inner.len() - 1, st) {
                    Ok(a) => a,
                    Err(e) => {
                        proof {
                            lemma_alias_args_fail(
                                cx@,
                                depth as nat,
                                views,
                                slots@,
                                (k + 1) as nat,
                                views.len(),
                                st0,
                            );
                        }
                        return Err(e);
                    },
                };
                passed.push(a);
            },
        }
        k += 1;
    }
    Ok(passed)
}

/// Compiles an expression: allocates the slots of its values in the frame and
/// emits its instructions. Returns the slot of the expression's value, or
/// `None` for a call that returns nothing.
pub fn compile_expression(expr: &Expr, cx: &Context, st: &mut Lowering) -> (res: Result<
    Option<u8>,
    ErrorKind,
>)
    requires
        cx.wf(),
        old(st).wf(),
    ensures
        final(st).wf(),
        lowered_as(
            old(st)@,
            final(st)@,
            res,
            spec_expression(cx@, alias_depth(cx@), expr@, old(st)@),
        ),
{
    proof {
        use_type_invariant(expr);
    }
    let ops = expr.ops();
    lower_node(cx, cx.env.len(), ops, ops.len() - 1, st)
}

/// Compiles an assignment to a variable that has been declared: the value is
/// compiled and moved into the variable's slot, which is returned.
pub fn compile_set(name: Ident, value: &Expr, cx: &Context, st: &mut Lowering) -> (res: Result<
    Option<u8>,
    ErrorKind,
>)
    requires
        cx.wf(),
        old(st).wf(),
    ensures
        final(st).wf(),
        lowered_as(old(st)@, final(st)@, res, spec_set(cx@, name, value@, old(st)@)),
{
    let dest = match st.vtable.lookup(name) {
        Ok(dest) => dest,
        Err(e) => {
            return Err(e);
        },
    };
    proof {
        lemma_lookup_is_start(st.vtable@, name);
    }
    let t = st.vtable.type_of(dest);
    let source = match compile_expression(value, cx, st) {
        Ok(Some(source)) => source,
        Ok(None) => {
            return Err(ErrorKind::NoReturnValue);
        },
        Err(e) => {
            return Err(e);
        },
    };
    let mov = match opcode(cx, Mnemonic::Mov, t) {
        Ok(mov) => mov,
        Err(e) => {
            return Err(e);
        },
    };
    let line = line2(mov.as_str(), decimal(dest as u64).as_str(), decimal(source as u64).as_str());
    st.out.append(line.as_str());
    proof {
        lemma_extends_slot(old(st)@.frame, st@.frame, dest as int);
    }
    Ok(Some(dest))
}

/// The state after a statement is the one that the statement's meaning
/// gives, after a success and after a failure, and what was there before is
/// kept.
pub open spec fn stated_as(
    before: LowerState,
    after: LowerState,
    res: Result<(), ErrorKind>,
    spec: Stated,
) -> bool {
    &&& state_kept(before, after)
    &&& match spec {
        Ok(st) => res is Ok && state_is(after, st),
        Err((e, st)) => res == Err::<(), ErrorKind>(e) && state_is(after, st),
    }
}

/// Compiles a simple statement: an expression, whose value is dropped while
/// its slots stay taken; a declaration, which allocates the variable, names
/// it and assigns the first value if there is one; or an assignment.
pub fn compile_simple_statement(stmt: &SimpleStatement, cx: &Context, st: &mut Lowering) -> (res:
    Result<(), ErrorKind>)
    requires
        cx.wf(),
        old(st).wf(),
    ensures
        final(st).wf(),
        stated_as(old(st)@, final(st)@, res, spec_simple_statement(cx@, *stmt, old(st)@)),
{
    match stmt {
        SimpleStatement::Expr(expr) => match compile_expression(expr, cx, st) {
            Ok(_) => Ok(()),
            Err(e) => Err(e),
        },
        SimpleStatement::VarDecl { name, var_type, init } => {
            if var_type.is_ptr {
                return Err(ErrorKind::NotYetSupported(Feature::Pointers));
            }
            let t = match cx.types.lookup(var_type.base_type) {
                Ok(t) => t,
                Err(e) => {
                    return Err(e);
                },
            };
            let slot = match st.vtable.allocate(t) {
                Ok(slot) => slot,
                Err(e) => {
                    return Err(e);
                },
            };
            proof {
                lemma_slot_at_start(st.vtable@, st.vtable@.len() - 1);
                assert(st.vtable@.take(st.vtable@.len() - 1) =~= old(st).vtable@);
            }
            st.vtable.bind(slot, *name);
            match init {
                None => Ok(()),
                Some(expr) => match compile_set(*name, expr, cx, st) {
                    Ok(_) => Ok(()),
                    Err(e) => Err(e),
                },
            }
        },
        SimpleStatement::Assignment { name, value } => match compile_set(*name, value, cx, st) {
            Ok(_) => Ok(()),
            Err(e) => Err(e),
        },
    }
}

/// Compiles a statement of a script. Control flow is refused.
pub fn compile_statement(statement: &ScriptStatement, cx: &Context, st: &mut Lowering) -> (res:
    Result<(), ErrorKind>)
    requires
        cx.wf(),
        old(st).wf(),
    ensures
        final(st).wf(),
        stated_as(old(st)@, final(st)@, res, spec_statement(cx@, statement.kind, old(st)@)),
{
    proof {
        reveal(spec_statement);
    }
    match &statement.kind {
        ScriptStatementKind::SimpleStatement(stmt) => compile_simple_statement(stmt, cx, st),
        _ => Err(ErrorKind::NotYetSupported(Feature::ControlFlow)),
    }
}

/// Once a statement has failed, those behind it are not looked at.
pub proof fn lemma_statements_fail(scope: Scope, body: Seq<ScriptStatement>, k: nat, n: nat, st: LowerState)
    requires
        k <= n <= body.len(),
        spec_statements(scope, body, k, st) is Err,
    ensures
        spec_statements(scope, body, n, st) == spec_statements(scope, body, k, st),
    decreases n,
{
    if k < n {
        lemma_statements_fail(scope, body, k, (n - 1) as nat, st);
    }
}

/// The text in front of a function's instructions.
fn function_header_string(name: &str) -> (res: String)
    ensures
        res@ == function_header(name@),
{
    let mut text = String::from_str("\nsection \"");
    text.append(name);
    text.append(" evscript fn\", romx\n");
    text.append(name);
    text.append("::\n");
    text
}

/// Compiles a script against the environments that have been declared: the
/// script's environment is looked up, its statements are compiled in their
/// order into a fresh frame, and the text is closed with the halting opcode.
/// Returns the frame, the text and the warnings.
#[verifier::loop_isolation(false)]
#[verifier::rlimit(50)]
pub fn compile_function(
    script: &Script,
    envs: &EnvironmentTable,
    types: &TypeTable,
    idents: &Interner,
) -> (res: Result<Lowering, Diagnostic>)
    requires
        envs.wf(),
        types.wf(),
        idents.wf(),
    ensures
        match spec_compile_function(envs@, types@, idents@, *script) {
            Ok(st) => {
                &&& res is Ok
                &&& res.unwrap().wf()
                &&& res.unwrap()@.frame == st.frame
                &&& res.unwrap()@.text == st.text
                &&& res.unwrap()@.warnings == st.warnings
            },
            Err(d) => res is Err && res->Err_0 == d,
        },
{
    proof {
        reveal(spec_compile_function);
    }
    let env = match envs.lookup(script.env) {
        Some(env) => env,
        None => {
            return Err(
                Diagnostic {
                    kind: ErrorKind::MissingEnvironment(script.env),
                    span: Some(script.span),
                },
            );
        },
    };
    let name = match idents.resolve(script.name) {
        Some(name) => name,
        None => {
            return Err(
                Diagnostic { kind: ErrorKind::UnknownIdent(script.name), span: Some(script.span) },
            );
        },
    };
    let cx = Context { env, types, idents };
    let mut st = Lowering::new();
    let header = function_header_string(name);
    st.out.append(header.as_str());
    let ghost start = st@;
    proof {
        assert(start.text =~= function_header(name@));
    }
    let mut k: usize = 0;
    while k < script.body.len()
        invariant
            k <= script.body.len(),
            st.wf(),
            spec_statements(cx@, script.body@, k as nat, start) matches Ok(s) && state_is(st@, s),
        decreases script.body.len() - k,
    {
        match compile_statement(&script.body[k], &cx, &mut st) {
            Ok(()) => {},
            Err(kind) => {
                proof {
                    lemma_statements_fail(
                        cx@,
                        script.body@,
                        (k + 1) as nat,
                        script.body@.len(),
                        start,
                    );
                }
                return Err(Diagnostic { kind, span: Some(script.body[k].span) });
            },
        }
        k += 1;
    }
    st.out.append("\tdb 0\n");
    Ok(st)
}

/// A compiled program: the assembler text, the warnings, and the number of
/// bytes that each function's frame takes.
pub struct Output {
    pub text: String,
    pub warnings: Vec<Warning>,
    pub usage: Vec<Usage>,
}

/// A program that has nothing in it yet but its environments.
pub open spec fn program_start(envs: Seq<EnvView>) -> ProgramState {
    ProgramState { envs, text: Seq::empty(), warnings: Seq::empty(), usage: Seq::empty() }
}

/// Once a declaration has failed, those behind it are not looked at.
pub proof fn lemma_roots_fail(
    types: Seq<crate::types::TypeEntryView>,
    names: Seq<Seq<char>>,
    explain: bool,
    st: ProgramState,
    roots: Seq<Root>,
    k: nat,
    n: nat,
)
    requires
        k <= n <= roots.len(),
        spec_roots(types, names, explain, st, roots, k) is Err,
    ensures
        spec_roots(types, names, explain, st, roots, n) == spec_roots(
            types,
            names,
            explain,
            st,
            roots,
            k,
        ),
    decreases n,
{
    if k < n {
        lemma_roots_fail(types, names, explain, st, roots, k, (n - 1) as nat);
    }
}

/// Compiles the declarations of a program in their order, starting from the
/// environments in `envs`: environment blocks are declared and the lines for
/// their opcodes written, scripts are compiled against the environments
/// declared before them. With `explain` the lines of an environment stand
/// between comments.
#[verifier::loop_isolation(false)]
#[verifier::rlimit(50)]
pub fn compile_roots(
    roots: &Vec<Root>,
    envs: EnvironmentTable,
    types: &TypeTable,
    idents: &Interner,
    explain: bool,
) -> (res: Result<Output, Diagnostic>)
    requires
        envs.wf(),
        types.wf(),
        idents.wf(),
    ensures
        match spec_roots(types@, idents@, explain, program_start(envs@), roots@, roots@.len()) {
            Ok(st) => {
                &&& res is Ok
                &&& res.unwrap().text@ == st.text
                &&& res.unwrap().warnings@ == st.warnings
                &&& res.unwrap().usage@ == st.usage
            },
            Err(d) => res is Err && res->Err_0 == d,
        },
{
    let ghost start = program_start(envs@);
    let mut envs = envs;
    let mut text = String::new();
    let mut warnings: Vec<Warning> = Vec::new();
    let mut usage: Vec<Usage> = Vec::new();
    let mut k: usize = 0;
    while k < roots.len()
        invariant
            k <= roots.len(),
            envs.wf(),
            spec_roots(types@, idents@, explain, start, roots@, k as nat) matches Ok(s) && s.envs
                == envs@ && s.text == text@ && s.warnings == warnings@ && s.usage == usage@,
        decreases roots.len() - k,
    {
        let ghost before = ProgramState {
            envs: envs@,
            text: text@,
            warnings: warnings@,
            usage: usage@,
        };
        let step: Result<(), Diagnostic> = match &roots[k] {
            Root::Env(decl) => {
                match declare_env(decl, &mut envs, &mut warnings) {
                    Err(d) => Err(d),
                    Ok(()) => {
                        proof {
                            assert(envs@.last() == envs@[envs@.len() - 1]);
                        }
                        match crate::output::emit_env(envs.get(envs.len() - 1), idents, explain) {
                            Err(kind) => Err(Diagnostic { kind, span: Some(decl.span) }),
                            Ok(lines) => {
                                text.append(lines.as_str());
                                Ok(())
                            },
                        }
                    },
                }
            },
            Root::Script(script) => {
                match compile_function(script, &envs, types, idents) {
                    Err(d) => Err(d),
                    Ok(compiled) => {
                        let mut compiled = compiled;
                        text.append(compiled.out.as_str());
                        warnings.append(&mut compiled.warnings);
                        usage.push(Usage { name: script.name, bytes: compiled.vtable.used() });
                        Ok(())
                    },
                }
            },
            Root::RawAsm(_) => Err(
                Diagnostic { kind: ErrorKind::NotYetSupported(Feature::RawAssembly), span: None },
            ),
            Root::Include(_) => Err(
                Diagnostic { kind: ErrorKind::NotYetSupported(Feature::Include), span: None },
            ),
            Root::Typedef(_) => Ok(()),
            Root::Struct(_) => Ok(()),
        };
        match step {
            Ok(()) => {},
            Err(d) => {
                proof {
                    assert(spec_root(types@, idents@, explain, before, roots@[k as int]) is Err);
                    lemma_roots_fail(
                        types@,
                        idents@,
                        explain,
                        start,
                        roots@,
                        (k + 1) as nat,
                        roots@.len(),
                    );
                }
                return Err(d);
            },
        }
        k += 1;
    }
    Ok(Output { text, warnings, usage })
}

/// The interned strings after a program has been compiled: the names of the
/// standard environment and of the primitive types have been interned.
pub open spec fn spec_program_names(names: Seq<Seq<char>>) -> Seq<Seq<char>> {
    crate::ident::spec_intern(
        crate::ident::spec_intern(
            crate::stdenv::spec_intern_std(names, (crate::stdenv::STD_ENTRIES + 1) as nat),
            "u8"@,
        ),
        "u16"@,
    )
}

/// Whether the interner has handles for the names of the standard
/// environment and of the primitive types.
pub open spec fn program_names_fit(names: Seq<Seq<char>>) -> bool {
    &&& crate::stdenv::std_names_fit(names, (crate::stdenv::STD_ENTRIES + 1) as nat)
    &&& crate::types::type_names_fit(
        crate::stdenv::spec_intern_std(names, (crate::stdenv::STD_ENTRIES + 1) as nat),
    )
}

/// Compiles a program: the standard environment is built and the program's
/// types are collected, then the declarations are compiled in their order.
/// Returns the assembler text, the warnings and the frame usage of each
/// function, or the diagnostic of the first declaration that fails. With
/// `explain` the lines of an environment stand between comments.
///
/// The names of the standard environment and of the primitive types are
/// interned first; where the interner has no handles left for them, the
/// compilation fails for want of identifiers.
#[verifier::rlimit(50)]
pub fn compile(ast: &Vec<Root>, idents: &mut Interner, explain: bool) -> (res: Result<
    Output,
    Diagnostic,
>)
    requires
        old(idents).wf(),
    ensures
        final(idents).wf(),
        crate::ident::names_extend(old(idents)@, final(idents)@),
        if program_names_fit(old(idents)@) {
            &&& final(idents)@ == spec_program_names(old(idents)@)
            &&& match spec_program(final(idents)@, ast@, explain) {
                Ok(st) => {
                    &&& res matches Ok(out)
                    &&& out.text@ == st.text
                    &&& out.warnings@ == st.warnings
                    &&& out.usage@ == st.usage
                },
                Err(d) => res matches Err(e) && e == d,
            }
        } else {
            res matches Err(d) && d == (Diagnostic { kind: ErrorKind::TooManyIdentifiers, span: None })
        },
{
    let ghost names0 = idents@;
    let std_env = match Environment::standard(idents) {
        Ok(env) => env,
        Err(kind) => {
            return Err(Diagnostic { kind, span: None });
        },
    };
    let ghost names1 = idents@;
    let types = match collect_types(ast, idents) {
        Ok(types) => types,
        Err(d) => {
            proof {
                if crate::types::type_names_fit(names1) {
                    crate::stdenv::lemma_std_view_stable(names1, idents@);
                }
            }
            return Err(d);
        },
    };
    proof {
        crate::stdenv::lemma_std_view_stable(names1, idents@);
    }
    let mut envs = EnvironmentTable::new();
    let inserted = envs.insert(std_env);
    proof {
        assert(inserted is Ok);
        assert(envs@ =~= seq![crate::stdenv::std_view(idents@)]);
    }
    compile_roots(ast, envs, &types, idents, explain)
}

} // verus!
