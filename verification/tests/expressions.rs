use evscript::expr::{Expr, Op, OpRef};
use evscript::ident::Interner;

fn describe(expr: &Expr) -> Vec<String> {
    expr.ops().iter().map(|op| format!("{:?}", op)).collect()
}

#[test]
fn from_ops_accepts_backward_references_only() {
    assert!(Expr::from_ops(vec![Op::Number(1), Op::Neg(OpRef(0))]).is_some());
    assert!(Expr::from_ops(vec![Op::Neg(OpRef(0))]).is_none());
    assert!(Expr::from_ops(vec![Op::Number(1), Op::Neg(OpRef(1))]).is_none());
    assert!(Expr::from_ops(vec![Op::Number(1), Op::Add(OpRef(0), OpRef(2))]).is_none());
    assert!(Expr::from_ops(vec![]).is_none());
}

#[test]
fn from_ops_checks_the_arguments_of_calls() {
    let mut idents = Interner::new();
    let f = idents.intern("f").unwrap();
    assert!(Expr::from_ops(vec![Op::Number(1), Op::Call(f, vec![OpRef(0)])]).is_some());
    assert!(Expr::from_ops(vec![Op::Number(1), Op::Call(f, vec![OpRef(0), OpRef(1)])]).is_none());
    assert!(Expr::from_ops(vec![Op::Call(f, vec![])]).is_some());
}

#[test]
fn unary_op_folds_a_constant() {
    let expr = Expr::unary_op(Expr::number(5), Op::Neg, |n| -n);
    assert_eq!(expr.const_eval(), Some(-5));
    assert_eq!(expr.len(), 1);
}

#[test]
fn unary_op_on_a_variable_appends_the_operator() {
    let mut idents = Interner::new();
    let x = idents.intern("x").unwrap();
    let expr = Expr::unary_op(Expr::variable(x), Op::Cpl, |n| !n);
    assert_eq!(expr.const_eval(), None);
    assert_eq!(describe(&expr), vec![format!("Variable({:?})", x), String::from("Cpl(OpRef(0))")]);
}

#[test]
fn binary_op_folds_only_two_constants() {
    let mut idents = Interner::new();
    let x = idents.intern("x").unwrap();
    let folded = Expr::binary_op(Expr::number(6), Expr::number(7), Op::Mul, |l, r| l * r);
    assert_eq!(folded.const_eval(), Some(42));
    let mixed = Expr::binary_op(Expr::number(6), Expr::variable(x), Op::Mul, |l, r| l * r);
    assert_eq!(mixed.const_eval(), None);
    assert_eq!(
        describe(&mixed),
        vec![
            String::from("Number(6)"),
            format!("Variable({:?})", x),
            String::from("Mul(OpRef(0), OpRef(1))"),
        ]
    );
}

#[test]
fn binary_op_moves_the_references_of_the_right_operand() {
    let mut idents = Interner::new();
    let x = idents.intern("x").unwrap();
    let y = idents.intern("y").unwrap();
    let left = Expr::binary_op(Expr::variable(x), Expr::number(1), Op::Add, |l, r| l + r);
    let right = Expr::binary_op(Expr::variable(y), Expr::number(2), Op::Sub, |l, r| l - r);
    let both = Expr::binary_op(left, right, Op::Mul, |l, r| l * r);
    assert_eq!(
        describe(&both),
        vec![
            format!("Variable({:?})", x),
            String::from("Number(1)"),
            String::from("Add(OpRef(0), OpRef(1))"),
            format!("Variable({:?})", y),
            String::from("Number(2)"),
            String::from("Sub(OpRef(3), OpRef(4))"),
            String::from("Mul(OpRef(2), OpRef(5))"),
        ]
    );
}

#[test]
fn deref_is_never_folded() {
    let expr = Expr::deref(Expr::number(5));
    assert_eq!(expr.const_eval(), None);
    assert_eq!(describe(&expr), vec![String::from("Number(5)"), String::from("Deref(OpRef(0))")]);
}

#[test]
fn func_call_refers_to_the_roots_of_its_arguments() {
    let mut idents = Interner::new();
    let f = idents.intern("f").unwrap();
    let x = idents.intern("x").unwrap();
    let first = Expr::binary_op(Expr::variable(x), Expr::number(1), Op::Add, |l, r| l + r);
    let second = Expr::unary_op(Expr::variable(x), Op::Neg, |n| -n);
    let call = Expr::func_call(f, vec![first, Expr::number(9), second]);
    assert_eq!(
        describe(&call),
        vec![
            format!("Variable({:?})", x),
            String::from("Number(1)"),
            String::from("Add(OpRef(0), OpRef(1))"),
            String::from("Number(9)"),
            format!("Variable({:?})", x),
            String::from("Neg(OpRef(4))"),
            format!("Call({:?}, [OpRef(2), OpRef(3), OpRef(5)])", f),
        ]
    );
    assert!(Expr::from_ops(call.duplicate().ops().iter().map(|op| op.duplicate()).collect()).is_some());
}

#[test]
fn func_call_without_arguments_is_a_single_operation() {
    let mut idents = Interner::new();
    let f = idents.intern("f").unwrap();
    let call = Expr::func_call(f, vec![]);
    assert_eq!(call.len(), 1);
    assert_eq!(describe(&call), vec![format!("Call({:?}, [])", f)]);
}

#[test]
fn get_returns_the_operation_at_a_position() {
    let expr = Expr::deref(Expr::number(5));
    assert!(matches!(expr.get(OpRef(0)), Some(Op::Number(5))));
    assert!(matches!(expr.get(OpRef(1)), Some(Op::Deref(OpRef(0)))));
    assert!(expr.get(OpRef(2)).is_none());
}
