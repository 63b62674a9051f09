use evscript::compiler::{compile_expression, compile_set, compile_simple_statement, Context, Lowering};
use evscript::diag::{ErrorKind, Feature, Mnemonic, Warning};
use evscript::envs::{define_func, Environment, FuncKind};
use evscript::expr::{Expr, Op, OpRef};
use evscript::ident::{Ident, Interner};
use evscript::parsing::{AliasParam, DefParam, DefParamKind, SimpleStatement, VarType};
use evscript::types::{Type, TypeDef, TypeTable};

struct World {
    idents: Interner,
    env: Environment,
    types: TypeTable,
    u8_name: Ident,
}

fn world() -> World {
    let mut idents = Interner::new();
    let env = Environment::standard(&mut idents).unwrap();
    let u8_name = idents.intern("u8").unwrap();
    let mut types = TypeTable::new();
    types.define(u8_name, TypeDef::Primitive(Type { signed: false, size: 1 })).unwrap();
    World { idents, env, types, u8_name }
}

fn lower(w: &World, expr: &Expr, st: &mut Lowering) -> Result<Option<u8>, ErrorKind> {
    let cx = Context { env: &w.env, types: &w.types, idents: &w.idents };
    compile_expression(expr, &cx, st)
}

fn value(kind: DefParamKind, name: Ident) -> DefParam {
    DefParam { name, kind }
}

#[test]
fn three_plus_four_at_runtime_emits_two_puts_and_an_add() {
    let w = world();
    let expr = Expr::from_ops(vec![Op::Number(3), Op::Number(4), Op::Add(OpRef(0), OpRef(1))]).unwrap();
    let mut st = Lowering::new();
    let slot = lower(&w, &expr, &mut st).unwrap();
    assert_eq!(slot, Some(2));
    assert_eq!(
        st.out,
        "\tdb std@put_u8, 0, 3\n\tdb std@put_u8, 1, 4\n\tdb std@add_u8, 2, 0, 1\n"
    );
    assert_eq!(st.vtable.used(), 3);
}

#[test]
fn three_plus_four_folds_to_seven_while_the_tree_is_built() {
    let w = world();
    let expr = Expr::binary_op(Expr::number(3), Expr::number(4), Op::Add, |l, r| l + r);
    assert_eq!(expr.len(), 1);
    assert_eq!(expr.const_eval(), Some(7));
    let mut st = Lowering::new();
    assert_eq!(lower(&w, &expr, &mut st), Ok(Some(0)));
    assert_eq!(st.out, "\tdb std@put_u8, 0, 7\n");
}

#[test]
fn left_operand_is_lowered_before_right_operand() {
    let w = world();
    let expr = Expr::from_ops(vec![Op::Number(10), Op::Number(20), Op::Sub(OpRef(1), OpRef(0))]).unwrap();
    let mut st = Lowering::new();
    assert_eq!(lower(&w, &expr, &mut st), Ok(Some(2)));
    assert_eq!(
        st.out,
        "\tdb std@put_u8, 0, 20\n\tdb std@put_u8, 1, 10\n\tdb std@sub_u8, 2, 0, 1\n"
    );
}

#[test]
fn negative_number_is_written_with_its_sign() {
    let w = world();
    let mut st = Lowering::new();
    assert_eq!(lower(&w, &Expr::number(-12), &mut st), Ok(Some(0)));
    assert_eq!(st.out, "\tdb std@put_u8, 0, -12\n");
}

#[test]
fn smallest_number_is_written_in_full() {
    let w = world();
    let mut st = Lowering::new();
    assert_eq!(lower(&w, &Expr::number(i64::MIN), &mut st), Ok(Some(0)));
    assert_eq!(st.out, "\tdb std@put_u8, 0, -9223372036854775808\n");
}

#[test]
fn negate_subtracts_from_a_zero() {
    let w = world();
    let expr = Expr::from_ops(vec![Op::Number(5), Op::Neg(OpRef(0))]).unwrap();
    let mut st = Lowering::new();
    assert_eq!(lower(&w, &expr, &mut st), Ok(Some(2)));
    assert_eq!(
        st.out,
        "\tdb std@put_u8, 0, 5\n\tdb std@put_u8, 1, 0\n\tdb std@sub_u8, 2, 1, 0\n"
    );
}

#[test]
fn complement_is_exclusive_or_with_all_ones() {
    let w = world();
    let expr = Expr::from_ops(vec![Op::Number(5), Op::Cpl(OpRef(0))]).unwrap();
    let mut st = Lowering::new();
    assert_eq!(lower(&w, &expr, &mut st), Ok(Some(2)));
    assert_eq!(
        st.out,
        "\tdb std@put_u8, 0, 5\n\tdb std@put_u8, 1, $FF\n\tdb std@bxor_u8, 2, 0, 1\n"
    );
}

#[test]
fn every_binary_operator_has_its_opcode() {
    let w = world();
    let cases: Vec<(Op, &str)> = vec![
        (Op::Mul(OpRef(0), OpRef(1)), "mul"),
        (Op::Div(OpRef(0), OpRef(1)), "div"),
        (Op::Mod(OpRef(0), OpRef(1)), "mod"),
        (Op::Add(OpRef(0), OpRef(1)), "add"),
        (Op::Sub(OpRef(0), OpRef(1)), "sub"),
        (Op::ShiftLeft(OpRef(0), OpRef(1)), "shl"),
        (Op::ShiftRight(OpRef(0), OpRef(1)), "shr"),
        (Op::BinaryAnd(OpRef(0), OpRef(1)), "band"),
        (Op::BinaryXor(OpRef(0), OpRef(1)), "bxor"),
        (Op::BinaryOr(OpRef(0), OpRef(1)), "bor"),
        (Op::Equ(OpRef(0), OpRef(1)), "equ"),
        (Op::NotEqu(OpRef(0), OpRef(1)), "nequ"),
        (Op::LessThan(OpRef(0), OpRef(1)), "lt"),
        (Op::GreaterThan(OpRef(0), OpRef(1)), "gt"),
        (Op::LessThanEqu(OpRef(0), OpRef(1)), "lte"),
        (Op::GreaterThanEqu(OpRef(0), OpRef(1)), "gte"),
        (Op::LogicalAnd(OpRef(0), OpRef(1)), "land"),
        (Op::LogicalOr(OpRef(0), OpRef(1)), "lor"),
    ];
    for (op, name) in cases {
        let expr = Expr::from_ops(vec![Op::Number(1), Op::Number(2), op]).unwrap();
        let mut st = Lowering::new();
        assert_eq!(lower(&w, &expr, &mut st), Ok(Some(2)));
        let expected = format!(
            "\tdb std@put_u8, 0, 1\n\tdb std@put_u8, 1, 2\n\tdb std@{}_u8, 2, 0, 1\n",
            name
        );
        assert_eq!(st.out, expected);
    }
}

#[test]
fn variable_resolves_to_its_slot_and_allocates_nothing() {
    let mut w = world();
    let x = w.idents.intern("x").unwrap();
    let mut st = Lowering::new();
    st.vtable.allocate(Type { signed: false, size: 1 }).unwrap();
    let a = st.vtable.allocate(Type { signed: false, size: 1 }).unwrap();
    st.vtable.bind(a, x);
    assert_eq!(lower(&w, &Expr::variable(x), &mut st), Ok(Some(1)));
    assert_eq!(st.out, "");
    assert_eq!(st.vtable.used(), 2);
}

#[test]
fn unknown_variable_is_an_error() {
    let mut w = world();
    let x = w.idents.intern("x").unwrap();
    let mut st = Lowering::new();
    assert_eq!(lower(&w, &Expr::variable(x), &mut st), Err(ErrorKind::UnknownVariable(x)));
}

#[test]
fn result_type_is_promoted_and_selects_the_opcode() {
    let mut w = world();
    let x = w.idents.intern("x").unwrap();
    let mut st = Lowering::new();
    let a = st.vtable.allocate(Type { signed: true, size: 1 }).unwrap();
    st.vtable.bind(a, x);
    let expr = Expr::from_ops(vec![Op::Variable(x), Op::Number(1), Op::Add(OpRef(0), OpRef(1))]).unwrap();
    assert_eq!(lower(&w, &expr, &mut st), Ok(Some(2)));
    assert_eq!(st.out, "\tdb std@put_u8, 1, 1\n\tdb std@add_u8, 2, 0, 1\n");
    assert_eq!(st.vtable.type_of(2), Type { signed: true, size: 1 });
}

#[test]
fn opcode_for_a_type_without_opcodes_is_missing() {
    let mut w = world();
    let x = w.idents.intern("x").unwrap();
    let mut st = Lowering::new();
    let a = st.vtable.allocate(Type { signed: false, size: 2 }).unwrap();
    st.vtable.bind(a, x);
    let expr = Expr::from_ops(vec![Op::Variable(x), Op::Variable(x), Op::Add(OpRef(0), OpRef(1))]).unwrap();
    assert_eq!(
        lower(&w, &expr, &mut st),
        Err(ErrorKind::MissingOpcode(Mnemonic::Add, Type { signed: false, size: 2 }))
    );
}

#[test]
fn string_address_and_deref_are_not_supported() {
    let mut w = world();
    let x = w.idents.intern("x").unwrap();
    let mut st = Lowering::new();
    assert_eq!(
        lower(&w, &Expr::string(String::from("hi")), &mut st),
        Err(ErrorKind::NotYetSupported(Feature::StringLiteral))
    );
    assert_eq!(
        lower(&w, &Expr::address(x), &mut st),
        Err(ErrorKind::NotYetSupported(Feature::Pointers))
    );
    assert_eq!(
        lower(&w, &Expr::deref(Expr::variable(x)), &mut st),
        Err(ErrorKind::NotYetSupported(Feature::Pointers))
    );
}

#[test]
fn frame_overflow_in_an_expression_is_out_of_space() {
    let w = world();
    let mut st = Lowering::new();
    st.vtable.allocate(Type { signed: false, size: 255 }).unwrap();
    let expr = Expr::from_ops(vec![Op::Number(3), Op::Number(4), Op::Add(OpRef(0), OpRef(1))]).unwrap();
    assert_eq!(lower(&w, &expr, &mut st), Err(ErrorKind::OutOfVariableSpace));
}

fn env_with(w: &mut World, name: &str, args: Vec<DefParam>, kind: FuncKind) -> Ident {
    let id = w.idents.intern(name).unwrap();
    define_func(&mut w.env, id, args, kind).unwrap();
    id
}

#[test]
fn direct_call_passes_slots_in_formal_order() {
    let mut w = world();
    let u8_name = w.u8_name;
    let f = env_with(
        &mut w,
        "f",
        vec![
            value(DefParamKind::Simple, u8_name),
            value(DefParamKind::Return, u8_name),
            value(DefParamKind::Simple, u8_name),
        ],
        FuncKind::Normal { id: 40 },
    );
    let expr = Expr::func_call(f, vec![Expr::number(7), Expr::number(8)]);
    let mut st = Lowering::new();
    assert_eq!(lower(&w, &expr, &mut st), Ok(Some(0)));
    assert_eq!(
        st.out,
        "\tdb std@put_u8, 1, 7\n\tdb std@put_u8, 2, 8\n\tdb std@f, 1, 0, 2\n"
    );
    assert!(st.warnings.is_empty());
}

#[test]
fn call_without_return_parameter_has_no_value() {
    let mut w = world();
    let u8_name = w.u8_name;
    let f = env_with(&mut w, "f", vec![value(DefParamKind::Simple, u8_name)], FuncKind::Normal { id: 40 });
    let expr = Expr::func_call(f, vec![Expr::number(7)]);
    let mut st = Lowering::new();
    assert_eq!(lower(&w, &expr, &mut st), Ok(None));
    assert_eq!(st.out, "\tdb std@put_u8, 0, 7\n\tdb std@f, 0\n");
}

#[test]
fn value_of_a_call_without_return_is_an_error() {
    let mut w = world();
    let f = env_with(&mut w, "f", vec![], FuncKind::Normal { id: 40 });
    let call = Expr::func_call(f, vec![]);
    let expr = Expr::unary_op(call, Op::Neg, |n| -n);
    let mut st = Lowering::new();
    assert_eq!(lower(&w, &expr, &mut st), Err(ErrorKind::NoReturnValue));
}

#[test]
fn too_many_arguments_are_refused() {
    let mut w = world();
    let u8_name = w.u8_name;
    let f = env_with(
        &mut w,
        "f",
        vec![value(DefParamKind::Simple, u8_name), value(DefParamKind::Return, u8_name)],
        FuncKind::Normal { id: 40 },
    );
    let expr = Expr::func_call(f, vec![Expr::number(1), Expr::number(2)]);
    let mut st = Lowering::new();
    assert_eq!(lower(&w, &expr, &mut st), Err(ErrorKind::TooManyArguments));
}

#[test]
fn not_enough_arguments_are_refused() {
    let mut w = world();
    let u8_name = w.u8_name;
    let f = env_with(
        &mut w,
        "f",
        vec![value(DefParamKind::Simple, u8_name), value(DefParamKind::Const, u8_name)],
        FuncKind::Normal { id: 40 },
    );
    let expr = Expr::func_call(f, vec![Expr::number(1)]);
    let mut st = Lowering::new();
    assert_eq!(lower(&w, &expr, &mut st), Err(ErrorKind::NotEnoughArguments));
}

#[test]
fn call_of_an_undefined_name_is_refused() {
    let mut w = world();
    let f = w.idents.intern("nothing").unwrap();
    let expr = Expr::func_call(f, vec![]);
    let mut st = Lowering::new();
    assert_eq!(lower(&w, &expr, &mut st), Err(ErrorKind::UnknownDefinition(f)));
}

#[test]
fn argument_of_another_type_gives_a_warning() {
    let mut w = world();
    let u16_name = w.idents.intern("u16").unwrap();
    w.types.define(u16_name, TypeDef::Primitive(Type { signed: false, size: 2 })).unwrap();
    let f = env_with(&mut w, "f", vec![value(DefParamKind::Simple, u16_name)], FuncKind::Normal { id: 40 });
    let expr = Expr::func_call(f, vec![Expr::number(1)]);
    let mut st = Lowering::new();
    assert_eq!(lower(&w, &expr, &mut st), Ok(None));
    assert_eq!(st.warnings, vec![Warning::ArgumentTypeMismatch]);
    assert_eq!(st.out, "\tdb std@put_u8, 0, 1\n\tdb std@f, 0\n");
}

#[test]
fn parameter_of_unknown_type_is_refused() {
    let mut w = world();
    let strange = w.idents.intern("strange").unwrap();
    let f = env_with(&mut w, "f", vec![value(DefParamKind::Simple, strange)], FuncKind::Normal { id: 40 });
    let expr = Expr::func_call(f, vec![Expr::number(1)]);
    let mut st = Lowering::new();
    assert_eq!(lower(&w, &expr, &mut st), Err(ErrorKind::UnknownType(strange)));
}

#[test]
fn alias_call_substitutes_arguments_for_the_target() {
    let mut w = world();
    let u8_name = w.u8_name;
    env_with(
        &mut w,
        "target",
        vec![
            value(DefParamKind::Simple, u8_name),
            value(DefParamKind::Simple, u8_name),
            value(DefParamKind::Simple, u8_name),
        ],
        FuncKind::Normal { id: 40 },
    );
    let target = w.idents.get("target").unwrap();
    let alias = env_with(
        &mut w,
        "alias",
        vec![value(DefParamKind::Simple, u8_name), value(DefParamKind::Simple, u8_name)],
        FuncKind::Alias {
            target,
            target_args: vec![
                AliasParam::Placeholder(2),
                AliasParam::Expr { is_const: true, expr: Expr::number(9) },
                AliasParam::Placeholder(1),
            ],
        },
    );
    let expr = Expr::func_call(alias, vec![Expr::number(1), Expr::number(2)]);
    let mut st = Lowering::new();
    assert_eq!(lower(&w, &expr, &mut st), Ok(None));
    assert_eq!(
        st.out,
        "\tdb std@put_u8, 0, 1\n\tdb std@put_u8, 1, 2\n\tdb std@put_u8, 2, 9\n\tdb std@target, 1, 2, 0\n"
    );
}

#[test]
fn alias_placeholder_beyond_its_arguments_is_too_large() {
    let mut w = world();
    let u8_name = w.u8_name;
    let target = env_with(&mut w, "target", vec![value(DefParamKind::Simple, u8_name)], FuncKind::Normal { id: 40 });
    let alias = env_with(
        &mut w,
        "alias",
        vec![value(DefParamKind::Simple, u8_name)],
        FuncKind::Alias { target, target_args: vec![AliasParam::Placeholder(2)] },
    );
    let expr = Expr::func_call(alias, vec![Expr::number(1)]);
    let mut st = Lowering::new();
    assert_eq!(lower(&w, &expr, &mut st), Err(ErrorKind::ArgumentIdTooLarge(2)));
}

#[test]
fn alias_placeholder_zero_is_refused() {
    let mut w = world();
    let u8_name = w.u8_name;
    let target = env_with(&mut w, "target", vec![value(DefParamKind::Simple, u8_name)], FuncKind::Normal { id: 40 });
    let alias = env_with(
        &mut w,
        "alias",
        vec![value(DefParamKind::Simple, u8_name)],
        FuncKind::Alias { target, target_args: vec![AliasParam::Placeholder(0)] },
    );
    let expr = Expr::func_call(alias, vec![Expr::number(1)]);
    let mut st = Lowering::new();
    assert_eq!(lower(&w, &expr, &mut st), Err(ErrorKind::ArgumentIdZero));
}

#[test]
fn alias_of_a_macro_is_refused() {
    let mut w = world();
    let text = w.idents.intern("some_macro").unwrap();
    let mac = env_with(&mut w, "mac", vec![], FuncKind::Macro { target: text, varargs: false });
    let alias = env_with(&mut w, "alias", vec![], FuncKind::Alias { target: mac, target_args: vec![] });
    let expr = Expr::func_call(alias, vec![]);
    let mut st = Lowering::new();
    assert_eq!(lower(&w, &expr, &mut st), Err(ErrorKind::MacroTarget(mac)));
}

#[test]
fn aliases_that_call_themselves_in_their_arguments_run_in_a_circle() {
    let mut w = world();
    let u8_name = w.u8_name;
    let target = env_with(
        &mut w,
        "target",
        vec![value(DefParamKind::Return, u8_name), value(DefParamKind::Simple, u8_name)],
        FuncKind::Normal { id: 40 },
    );
    let alias = w.idents.intern("alias").unwrap();
    define_func(
        &mut w.env,
        alias,
        vec![value(DefParamKind::Return, u8_name)],
        FuncKind::Alias {
            target,
            target_args: vec![
                AliasParam::Placeholder(1),
                AliasParam::Expr { is_const: false, expr: Expr::func_call(alias, vec![]) },
            ],
        },
    )
    .unwrap();
    let expr = Expr::func_call(alias, vec![]);
    let mut st = Lowering::new();
    assert_eq!(lower(&w, &expr, &mut st), Err(ErrorKind::AliasArgumentCycle));
}

#[test]
fn macro_call_writes_target_text_and_slots() {
    let mut w = world();
    let u8_name = w.u8_name;
    let text = w.idents.intern("print_number").unwrap();
    let mac = env_with(
        &mut w,
        "print",
        vec![value(DefParamKind::Simple, u8_name), value(DefParamKind::Simple, u8_name)],
        FuncKind::Macro { target: text, varargs: false },
    );
    let expr = Expr::func_call(mac, vec![Expr::number(1), Expr::number(2)]);
    let mut st = Lowering::new();
    assert_eq!(lower(&w, &expr, &mut st), Ok(None));
    assert_eq!(
        st.out,
        "\tdb std@put_u8, 0, 1\n\tdb std@put_u8, 1, 2\n\tprint_number 0, 1,\n"
    );
}

#[test]
fn varargs_macro_accepts_more_arguments_than_formals() {
    let mut w = world();
    let u8_name = w.u8_name;
    let text = w.idents.intern("print_all").unwrap();
    let mac = env_with(
        &mut w,
        "print",
        vec![value(DefParamKind::Simple, u8_name)],
        FuncKind::Macro { target: text, varargs: true },
    );
    let expr = Expr::func_call(mac, vec![Expr::number(1), Expr::number(2), Expr::number(3)]);
    let mut st = Lowering::new();
    assert_eq!(lower(&w, &expr, &mut st), Ok(None));
    assert_eq!(
        st.out,
        "\tdb std@put_u8, 0, 1\n\tdb std@put_u8, 1, 2\n\tdb std@put_u8, 2, 3\n\tprint_all 0, 1, 2,\n"
    );
    assert_eq!(st.vtable.used(), 3);
}

#[test]
fn varargs_macro_without_formals_lists_every_argument() {
    let mut w = world();
    let text = w.idents.intern("print_all").unwrap();
    let mac = env_with(&mut w, "print", vec![], FuncKind::Macro { target: text, varargs: true });
    let one = Expr::func_call(mac, vec![Expr::number(7)]);
    let mut st = Lowering::new();
    assert_eq!(lower(&w, &one, &mut st), Ok(None));
    assert_eq!(st.out, "\tdb std@put_u8, 0, 7\n\tprint_all 0,\n");
    let none = Expr::func_call(mac, vec![]);
    let mut st = Lowering::new();
    assert_eq!(lower(&w, &none, &mut st), Ok(None));
    assert_eq!(st.out, "\tprint_all\n");
}

#[test]
fn varargs_macro_lists_return_slot_formals_and_further_arguments() {
    let mut w = world();
    let u8_name = w.u8_name;
    let text = w.idents.intern("sum").unwrap();
    let mac = env_with(
        &mut w,
        "sum",
        vec![value(DefParamKind::Return, u8_name), value(DefParamKind::Simple, u8_name)],
        FuncKind::Macro { target: text, varargs: true },
    );
    let x = w.idents.intern("x").unwrap();
    let mut st = Lowering::new();
    let a = st.vtable.allocate(Type { signed: false, size: 2 }).unwrap();
    st.vtable.bind(a, x);
    let expr = Expr::func_call(mac, vec![Expr::number(1), Expr::variable(x), Expr::number(3)]);
    assert_eq!(lower(&w, &expr, &mut st), Ok(Some(2)));
    assert_eq!(
        st.out,
        "\tdb std@put_u8, 3, 1\n\tdb std@put_u8, 4, 3\n\tsum 2, 3, 0, 4,\n"
    );
    assert!(st.warnings.is_empty());
}

#[test]
fn failing_further_argument_of_a_varargs_macro_fails_the_call() {
    let mut w = world();
    let text = w.idents.intern("print_all").unwrap();
    let mac = env_with(&mut w, "print", vec![], FuncKind::Macro { target: text, varargs: true });
    let y = w.idents.intern("y").unwrap();
    let expr = Expr::func_call(mac, vec![Expr::number(1), Expr::variable(y)]);
    let mut st = Lowering::new();
    assert_eq!(lower(&w, &expr, &mut st), Err(ErrorKind::UnknownVariable(y)));
    assert_eq!(st.out, "\tdb std@put_u8, 0, 1\n");
}

#[test]
fn call_with_wrong_argument_count_lowers_and_writes_nothing() {
    let mut w = world();
    let u8_name = w.u8_name;
    let f = env_with(
        &mut w,
        "f",
        vec![value(DefParamKind::Return, u8_name), value(DefParamKind::Simple, u8_name)],
        FuncKind::Normal { id: 40 },
    );
    let mut st = Lowering::new();
    lower(&w, &Expr::number(9), &mut st).unwrap();
    let before = st.out.clone();
    let many = Expr::func_call(f, vec![Expr::number(1), Expr::number(2)]);
    assert_eq!(lower(&w, &many, &mut st), Err(ErrorKind::TooManyArguments));
    assert_eq!(st.out, before);
    assert_eq!(st.vtable.used(), 1);
    let few = Expr::func_call(f, vec![]);
    assert_eq!(lower(&w, &few, &mut st), Err(ErrorKind::NotEnoughArguments));
    assert_eq!(st.out, before);
    assert_eq!(st.vtable.used(), 1);
}

#[test]
fn failure_keeps_what_was_lowered_before_it() {
    let mut w = world();
    let y = w.idents.intern("y").unwrap();
    let expr = Expr::from_ops(vec![Op::Number(1), Op::Variable(y), Op::Add(OpRef(0), OpRef(1))]).unwrap();
    let mut st = Lowering::new();
    lower(&w, &Expr::number(9), &mut st).unwrap();
    assert_eq!(lower(&w, &expr, &mut st), Err(ErrorKind::UnknownVariable(y)));
    assert_eq!(st.out, "\tdb std@put_u8, 0, 9\n\tdb std@put_u8, 1, 1\n");
    assert_eq!(st.vtable.used(), 2);
}

#[test]
fn assignment_to_an_undeclared_variable_changes_nothing() {
    let mut w = world();
    let x = w.idents.intern("x").unwrap();
    let mut st = Lowering::new();
    lower(&w, &Expr::number(9), &mut st).unwrap();
    let before = st.out.clone();
    let cx = Context { env: &w.env, types: &w.types, idents: &w.idents };
    assert_eq!(
        compile_set(x, &Expr::number(5), &cx, &mut st),
        Err(ErrorKind::UnknownVariable(x))
    );
    assert_eq!(st.out, before);
    assert_eq!(st.vtable.used(), 1);
    assert_eq!(st.vtable.lookup(x), Err(ErrorKind::UnknownVariable(x)));
}

#[test]
fn declaration_that_fails_changes_nothing() {
    let mut w = world();
    let x = w.idents.intern("x").unwrap();
    let strange = w.idents.intern("strange").unwrap();
    let mut st = Lowering::new();
    st.vtable.allocate(Type { signed: false, size: 255 }).unwrap();
    st.vtable.allocate(Type { signed: false, size: 1 }).unwrap();
    let cx = Context { env: &w.env, types: &w.types, idents: &w.idents };
    let unknown = SimpleStatement::VarDecl {
        name: x,
        var_type: VarType { base_type: strange, is_ptr: false },
        init: None,
    };
    assert_eq!(
        compile_simple_statement(&unknown, &cx, &mut st),
        Err(ErrorKind::UnknownType(strange))
    );
    let full = SimpleStatement::VarDecl {
        name: x,
        var_type: VarType { base_type: w.u8_name, is_ptr: false },
        init: None,
    };
    assert_eq!(
        compile_simple_statement(&full, &cx, &mut st),
        Err(ErrorKind::OutOfVariableSpace)
    );
    assert_eq!(st.out, "");
    assert_eq!(st.vtable.used(), 256);
    assert_eq!(st.vtable.lookup(x), Err(ErrorKind::UnknownVariable(x)));
}

#[test]
fn destination_of_a_binary_operator_is_a_fresh_slot() {
    let mut w = world();
    let x = w.idents.intern("x").unwrap();
    let mut st = Lowering::new();
    let a = st.vtable.allocate(Type { signed: true, size: 1 }).unwrap();
    st.vtable.bind(a, x);
    let expr = Expr::from_ops(vec![Op::Variable(x), Op::Variable(x), Op::Mul(OpRef(0), OpRef(1))]).unwrap();
    let d = lower(&w, &expr, &mut st).unwrap().unwrap();
    assert_eq!(d, 1);
    assert_ne!(d, a);
    assert_eq!(st.vtable.type_of(d), Type { signed: true, size: 1 });
    assert_eq!(st.out, "\tdb std@mul_u8, 1, 0, 0\n");
}

#[test]
fn varargs_macro_still_needs_its_formals() {
    let mut w = world();
    let u8_name = w.u8_name;
    let text = w.idents.intern("print_all").unwrap();
    let mac = env_with(
        &mut w,
        "print",
        vec![value(DefParamKind::Simple, u8_name)],
        FuncKind::Macro { target: text, varargs: true },
    );
    let expr = Expr::func_call(mac, vec![]);
    let mut st = Lowering::new();
    assert_eq!(lower(&w, &expr, &mut st), Err(ErrorKind::NotEnoughArguments));
}

#[test]
fn macro_without_varargs_refuses_extra_arguments() {
    let mut w = world();
    let text = w.idents.intern("noargs").unwrap();
    let mac = env_with(&mut w, "m", vec![], FuncKind::Macro { target: text, varargs: false });
    let expr = Expr::func_call(mac, vec![Expr::number(1)]);
    let mut st = Lowering::new();
    assert_eq!(lower(&w, &expr, &mut st), Err(ErrorKind::TooManyArguments));
}

#[test]
fn set_moves_the_value_into_the_variable() {
    let mut w = world();
    let x = w.idents.intern("x").unwrap();
    let mut st = Lowering::new();
    let a = st.vtable.allocate(Type { signed: false, size: 1 }).unwrap();
    st.vtable.bind(a, x);
    let cx = Context { env: &w.env, types: &w.types, idents: &w.idents };
    assert_eq!(compile_set(x, &Expr::number(5), &cx, &mut st), Ok(Some(0)));
    assert_eq!(st.out, "\tdb std@put_u8, 1, 5\n\tdb std@mov_u8, 0, 1\n");
}

#[test]
fn set_never_declares() {
    let mut w = world();
    let x = w.idents.intern("x").unwrap();
    let mut st = Lowering::new();
    let cx = Context { env: &w.env, types: &w.types, idents: &w.idents };
    assert_eq!(
        compile_set(x, &Expr::number(5), &cx, &mut st),
        Err(ErrorKind::UnknownVariable(x))
    );
}

#[test]
fn declaration_allocates_and_emits_nothing() {
    let mut w = world();
    let x = w.idents.intern("x").unwrap();
    let stmt = SimpleStatement::VarDecl {
        name: x,
        var_type: VarType { base_type: w.u8_name, is_ptr: false },
        init: None,
    };
    let mut st = Lowering::new();
    let cx = Context { env: &w.env, types: &w.types, idents: &w.idents };
    assert_eq!(compile_simple_statement(&stmt, &cx, &mut st), Ok(()));
    assert_eq!(st.out, "");
    assert_eq!(st.vtable.lookup(x), Ok(0));
    assert_eq!(st.vtable.used(), 1);
}

#[test]
fn declaration_with_value_declares_then_sets() {
    let mut w = world();
    let x = w.idents.intern("x").unwrap();
    let stmt = SimpleStatement::VarDecl {
        name: x,
        var_type: VarType { base_type: w.u8_name, is_ptr: false },
        init: Some(Expr::number(9)),
    };
    let mut st = Lowering::new();
    let cx = Context { env: &w.env, types: &w.types, idents: &w.idents };
    assert_eq!(compile_simple_statement(&stmt, &cx, &mut st), Ok(()));
    assert_eq!(st.out, "\tdb std@put_u8, 1, 9\n\tdb std@mov_u8, 0, 1\n");
}

#[test]
fn declaration_of_a_pointer_is_not_supported() {
    let mut w = world();
    let x = w.idents.intern("x").unwrap();
    let stmt = SimpleStatement::VarDecl {
        name: x,
        var_type: VarType { base_type: w.u8_name, is_ptr: true },
        init: None,
    };
    let mut st = Lowering::new();
    let cx = Context { env: &w.env, types: &w.types, idents: &w.idents };
    assert_eq!(
        compile_simple_statement(&stmt, &cx, &mut st),
        Err(ErrorKind::NotYetSupported(Feature::Pointers))
    );
}

#[test]
fn expression_statement_keeps_its_slots() {
    let w = world();
    let stmt = SimpleStatement::Expr(Expr::number(1));
    let mut st = Lowering::new();
    let cx = Context { env: &w.env, types: &w.types, idents: &w.idents };
    assert_eq!(compile_simple_statement(&stmt, &cx, &mut st), Ok(()));
    assert_eq!(compile_simple_statement(&stmt, &cx, &mut st), Ok(()));
    assert_eq!(st.vtable.used(), 2);
}

#[test]
fn aliases_nested_twenty_deep_without_a_circle_are_lowered() {
    let mut w = world();
    let u8_name = w.u8_name;
    let target = env_with(
        &mut w,
        "target",
        vec![value(DefParamKind::Return, u8_name), value(DefParamKind::Simple, u8_name)],
        FuncKind::Normal { id: 40 },
    );
    let names: Vec<Ident> = (0..20).map(|i| w.idents.intern(&format!("a{}", i)).unwrap()).collect();
    for i in 0..20 {
        let inner = if i == 19 { Expr::number(5) } else { Expr::func_call(names[i + 1], vec![]) };
        define_func(
            &mut w.env,
            names[i],
            vec![value(DefParamKind::Return, u8_name)],
            FuncKind::Alias {
                target,
                target_args: vec![
                    AliasParam::Placeholder(1),
                    AliasParam::Expr { is_const: false, expr: inner },
                ],
            },
        )
        .unwrap();
    }
    let expr = Expr::func_call(names[0], vec![]);
    let mut st = Lowering::new();
    assert_eq!(lower(&w, &expr, &mut st), Ok(Some(0)));
    assert_eq!(st.vtable.used(), 21);
    let mut expected = String::from("\tdb std@put_u8, 20, 5\n");
    for i in (0..20).rev() {
        expected.push_str(&format!("\tdb std@target, {}, {}\n", i, i + 1));
    }
    assert_eq!(st.out, expected);
}
