//! Expressions: an append-only arena of operations, in which every operator
//! refers to its operands by their positions, which lie before its own.

use crate::diag::Mnemonic;
use crate::ident::Ident;
use vstd::prelude::*;

verus! {

/// The position of an operation in an expression's arena.
#[derive(Clone, Copy, Debug, PartialEq, Eq, Structural)]
pub struct OpRef(pub usize);

/// An operation. Terminals such as numbers count as operations too.
#[derive(Debug)]
pub enum Op {
    // Terminals.
    Number(i64),
    String(String),
    Variable(Ident),
    Address(Ident),
    Call(Ident, Vec<OpRef>),
    // Unary operators.
    Deref(OpRef),
    Neg(OpRef),
    Cpl(OpRef),
    // Binary operators.
    LogicalOr(OpRef, OpRef),
    LogicalAnd(OpRef, OpRef),
    Equ(OpRef, OpRef),
    NotEqu(OpRef, OpRef),
    LessThan(OpRef, OpRef),
    LessThanEqu(OpRef, OpRef),
    GreaterThan(OpRef, OpRef),
    GreaterThanEqu(OpRef, OpRef),
    BinaryOr(OpRef, OpRef),
    BinaryXor(OpRef, OpRef),
    BinaryAnd(OpRef, OpRef),
    ShiftLeft(OpRef, OpRef),
    ShiftRight(OpRef, OpRef),
    Add(OpRef, OpRef),
    Sub(OpRef, OpRef),
    Mul(OpRef, OpRef),
    Div(OpRef, OpRef),
    Mod(OpRef, OpRef),
}

/// What an operation is, as a mathematical value: the binary operators are
/// told apart by the opcode family that computes them.
pub enum OpView {
    Number(i64),
    Text(Seq<char>),
    Variable(Ident),
    Address(Ident),
    Call(Ident, Seq<OpRef>),
    Deref(OpRef),
    Neg(OpRef),
    Cpl(OpRef),
    Binary(Mnemonic, OpRef, OpRef),
}

impl View for Op {
    type V = OpView;

    open spec fn view(&self) -> OpView {
        match *self {
            Op::Number(n) => OpView::Number(n),
            Op::String(s) => OpView::Text(s@),
            Op::Variable(name) => OpView::Variable(name),
            Op::Address(name) => OpView::Address(name),
            Op::Call(name, args) => OpView::Call(name, args@),
            Op::Deref(x) => OpView::Deref(x),
            Op::Neg(x) => OpView::Neg(x),
            Op::Cpl(x) => OpView::Cpl(x),
            Op::LogicalOr(l, r) => OpView::Binary(Mnemonic::Lor, l, r),
            Op::LogicalAnd(l, r) => OpView::Binary(Mnemonic::Land, l, r),
            Op::Equ(l, r) => OpView::Binary(Mnemonic::Equ, l, r),
            Op::NotEqu(l, r) => OpView::Binary(Mnemonic::Nequ, l, r),
            Op::LessThan(l, r) => OpView::Binary(Mnemonic::Lt, l, r),
            Op::LessThanEqu(l, r) => OpView::Binary(Mnemonic::Lte, l, r),
            Op::GreaterThan(l, r) => OpView::Binary(Mnemonic::Gt, l, r),
            Op::GreaterThanEqu(l, r) => OpView::Binary(Mnemonic::Gte, l, r),
            Op::BinaryOr(l, r) => OpView::Binary(Mnemonic::Bor, l, r),
            Op::BinaryXor(l, r) => OpView::Binary(Mnemonic::Bxor, l, r),
            Op::BinaryAnd(l, r) => OpView::Binary(Mnemonic::Band, l, r),
            Op::ShiftLeft(l, r) => OpView::Binary(Mnemonic::Shl, l, r),
            Op::ShiftRight(l, r) => OpView::Binary(Mnemonic::Shr, l, r),
            Op::Add(l, r) => OpView::Binary(Mnemonic::Add, l, r),
            Op::Sub(l, r) => OpView::Binary(Mnemonic::Sub, l, r),
            Op::Mul(l, r) => OpView::Binary(Mnemonic::Mul, l, r),
            Op::Div(l, r) => OpView::Binary(Mnemonic::Div, l, r),
            Op::Mod(l, r) => OpView::Binary(Mnemonic::Mod, l, r),
        }
    }
}

/// The views of a sequence of operations.
pub open spec fn ops_view(ops: Seq<Op>) -> Seq<OpView> {
    ops.map_values(|op: Op| op@)
}

/// Every operand of the operation stands before position `limit`.
pub open spec fn refs_below(op: OpView, limit: int) -> bool {
    match op {
        OpView::Call(_, args) => forall|j: int| 0 <= j < args.len() ==> (#[trigger] args[j]).0 < limit,
        OpView::Deref(x) => x.0 < limit,
        OpView::Neg(x) => x.0 < limit,
        OpView::Cpl(x) => x.0 < limit,
        OpView::Binary(_, l, r) => l.0 < limit && r.0 < limit,
        _ => true,
    }
}

/// An arena is well formed when it is not empty and every operation refers
/// only to operations before it. Its last operation is the expression's root.
pub open spec fn arena_wf(ops: Seq<OpView>) -> bool {
    &&& ops.len() >= 1
    &&& forall|i: int| 0 <= i < ops.len() ==> refs_below(#[trigger] ops[i], i)
}

/// The operation with every operand moved `by` positions up.
pub open spec fn shift_op(op: OpView, by: nat) -> OpView {
    match op {
        OpView::Call(name, args) => OpView::Call(
            name,
            args.map_values(|r: OpRef| OpRef((r.0 + by) as usize)),
        ),
        OpView::Deref(x) => OpView::Deref(OpRef((x.0 + by) as usize)),
        OpView::Neg(x) => OpView::Neg(OpRef((x.0 + by) as usize)),
        OpView::Cpl(x) => OpView::Cpl(OpRef((x.0 + by) as usize)),
        OpView::Binary(m, l, r) => OpView::Binary(
            m,
            OpRef((l.0 + by) as usize),
            OpRef((r.0 + by) as usize),
        ),
        other => other,
    }
}

/// An arena as it reads after `by` operations have been put in front of it.
pub open spec fn shift_ops(ops: Seq<OpView>, by: nat) -> Seq<OpView> {
    ops.map_values(|op: OpView| shift_op(op, by))
}

/// An expression.
#[derive(Debug)]
pub struct Expr {
    ops: Vec<Op>,
}

impl View for Expr {
    type V = Seq<OpView>;

    closed spec fn view(&self) -> Seq<OpView> {
        ops_view(self.ops@)
    }
}

/// Copies the operand list of a call.
fn clone_refs(refs: &Vec<OpRef>) -> (res: Vec<OpRef>)
    ensures
        res@ == refs@,
{
    let mut res: Vec<OpRef> = Vec::new();
    let mut j: usize = 0;
    while j < refs.len()
        invariant
            j <= refs.len(),
            res@ == refs@.take(j as int),
        decreases refs.len() - j,
    {
        res.push(refs[j]);
        proof {
            assert(refs@.take(j + 1) =~= refs@.take(j as int).push(refs@[j as int]));
        }
        j += 1;
    }
    proof {
        assert(refs@.take(refs.len() as int) =~= refs@);
    }
    res
}

impl Op {
    /// The opcode family and the operands of a binary operator.
    pub fn binary_parts(&self) -> (res: Option<(Mnemonic, OpRef, OpRef)>)
        ensures
            match res {
                Some((m, l, r)) => self@ == OpView::Binary(m, l, r),
                None => !(self@ is Binary),
            },
    {
        match self {
            Op::LogicalOr(l, r) => Some((Mnemonic::Lor, *l, *r)),
            Op::LogicalAnd(l, r) => Some((Mnemonic::Land, *l, *r)),
            Op::Equ(l, r) => Some((Mnemonic::Equ, *l, *r)),
            Op::NotEqu(l, r) => Some((Mnemonic::Nequ, *l, *r)),
            Op::LessThan(l, r) => Some((Mnemonic::Lt, *l, *r)),
            Op::LessThanEqu(l, r) => Some((Mnemonic::Lte, *l, *r)),
            Op::GreaterThan(l, r) => Some((Mnemonic::Gt, *l, *r)),
            Op::GreaterThanEqu(l, r) => Some((Mnemonic::Gte, *l, *r)),
            Op::BinaryOr(l, r) => Some((Mnemonic::Bor, *l, *r)),
            Op::BinaryXor(l, r) => Some((Mnemonic::Bxor, *l, *r)),
            Op::BinaryAnd(l, r) => Some((Mnemonic::Band, *l, *r)),
            Op::ShiftLeft(l, r) => Some((Mnemonic::Shl, *l, *r)),
            Op::ShiftRight(l, r) => Some((Mnemonic::Shr, *l, *r)),
            Op::Add(l, r) => Some((Mnemonic::Add, *l, *r)),
            Op::Sub(l, r) => Some((Mnemonic::Sub, *l, *r)),
            Op::Mul(l, r) => Some((Mnemonic::Mul, *l, *r)),
            Op::Div(l, r) => Some((Mnemonic::Div, *l, *r)),
            Op::Mod(l, r) => Some((Mnemonic::Mod, *l, *r)),
            _ => None,
        }
    }

    /// Whether every operand of the operation stands before `limit`.
    pub fn refers_below(&self, limit: usize) -> (res: bool)
        ensures
            res == refs_below(self@, limit as int),
    {
        match self {
            Op::Call(name, args) => {
                let mut j: usize = 0;
                while j < args.len()
                    invariant
                        self@ == OpView::Call(*name, args@),
                        j <= args.len(),
                        forall|k: int| 0 <= k < j ==> (#[trigger] args@[k]).0 < limit,
                    decreases args.len() - j,
                {
                    if args[j].0 >= limit {
                        proof {
                            assert(self@->Call_1[j as int].0 >= limit);
                        }
                        return false;
                    }
                    j += 1;
                }
                true
            },
            Op::Deref(x) | Op::Neg(x) | Op::Cpl(x) => x.0 < limit,
            Op::Number(_) | Op::String(_) | Op::Variable(_) | Op::Address(_) => true,
            _ => {
                match self.binary_parts() {
                    Some((_, l, r)) => l.0 < limit && r.0 < limit,
                    None => true,
                }
            },
        }
    }

    /// A copy of the operation.
    pub fn duplicate(&self) -> (res: Op)
        ensures
            res@ == self@,
    {
        match self {
            Op::Number(n) => Op::Number(*n),
            Op::String(s) => Op::String(s.clone()),
            Op::Variable(name) => Op::Variable(*name),
            Op::Address(name) => Op::Address(*name),
            Op::Call(name, args) => Op::Call(*name, clone_refs(args)),
            Op::Deref(x) => Op::Deref(*x),
            Op::Neg(x) => Op::Neg(*x),
            Op::Cpl(x) => Op::Cpl(*x),
            Op::LogicalOr(l, r) => Op::LogicalOr(*l, *r),
            Op::LogicalAnd(l, r) => Op::LogicalAnd(*l, *r),
            Op::Equ(l, r) => Op::Equ(*l, *r),
            Op::NotEqu(l, r) => Op::NotEqu(*l, *r),
            Op::LessThan(l, r) => Op::LessThan(*l, *r),
            Op::LessThanEqu(l, r) => Op::LessThanEqu(*l, *r),
            Op::GreaterThan(l, r) => Op::GreaterThan(*l, *r),
            Op::GreaterThanEqu(l, r) => Op::GreaterThanEqu(*l, *r),
            Op::BinaryOr(l, r) => Op::BinaryOr(*l, *r),
            Op::BinaryXor(l, r) => Op::BinaryXor(*l, *r),
            Op::BinaryAnd(l, r) => Op::BinaryAnd(*l, *r),
            Op::ShiftLeft(l, r) => Op::ShiftLeft(*l, *r),
            Op::ShiftRight(l, r) => Op::ShiftRight(*l, *r),
            Op::Add(l, r) => Op::Add(*l, *r),
            Op::Sub(l, r) => Op::Sub(*l, *r),
            Op::Mul(l, r) => Op::Mul(*l, *r),
            Op::Div(l, r) => Op::Div(*l, *r),
            Op::Mod(l, r) => Op::Mod(*l, *r),
        }
    }
}

impl Expr {
    /// Every operation refers only to operations before it. This holds of
    /// every expression that exists.
    #[verifier::type_invariant]
    pub open spec fn wf(self) -> bool {
        arena_wf(self@)
    }

    /// The position of the root: the last operation.
    pub open spec fn spec_root(self) -> int {
        self@.len() - 1
    }

    /// An expression over the given operations, where they form a well-formed
    /// arena; `None` where they do not.
    pub fn from_ops(ops: Vec<Op>) -> (res: Option<Expr>)
        ensures
            res is Some <==> arena_wf(ops_view(ops@)),
            res matches Some(e) ==> e@ == ops_view(ops@) && e.wf(),
    {
        if ops.len() == 0 {
            return None;
        }
        let mut i: usize = 0;
        while i < ops.len()
            invariant
                i <= ops.len(),
                forall|k: int| 0 <= k < i ==> refs_below(#[trigger] ops_view(ops@)[k], k),
            decreases ops.len() - i,
        {
            if !ops[i].refers_below(i) {
                proof {
                    assert(!refs_below(ops_view(ops@)[i as int], i as int));
                }
                return None;
            }
            i += 1;
        }
        Some(Expr { ops })
    }

    /// The operations of the expression.
    pub fn ops(&self) -> (res: &Vec<Op>)
        ensures
            ops_view(res@) == self@,
    {
        &self.ops
    }

    /// The number of operations.
    pub fn len(&self) -> (res: usize)
        ensures
            res == self@.len(),
    {
        self.ops.len()
    }

    /// The operation at a position, if the arena has that many.
    pub fn get(&self, index: OpRef) -> (res: Option<&Op>)
        ensures
            match res {
                Some(op) => index.0 < self@.len() && op@ == self@[index.0 as int],
                None => index.0 >= self@.len(),
            },
    {
        if index.0 < self.ops.len() {
            Some(&self.ops[index.0])
        } else {
            None
        }
    }

    /// The value of a constant expression. Constants are folded while an
    /// expression is built, so a constant expression is a single number.
    pub fn const_eval(&self) -> (res: Option<i64>)
        ensures
            res == spec_const_eval(self@),
    {
        if self.ops.len() == 1 {
            match &self.ops[0] {
                Op::Number(n) => Some(*n),
                _ => None,
            }
        } else {
            None
        }
    }

    /// A copy of the expression.
    pub fn duplicate(&self) -> (res: Expr)
        ensures
            res@ == self@,
    {
        let mut ops: Vec<Op> = Vec::new();
        let mut i: usize = 0;
        while i < self.ops.len()
            invariant
                i <= self.ops.len(),
                ops_view(ops@) == self@.take(i as int),
            decreases self.ops.len() - i,
        {
            let op = self.ops[i].duplicate();
            ops.push(op);
            proof {
                assert(ops_view(ops@) =~= self@.take(i as int).push(self@[i as int]));
                assert(self@.take(i + 1) =~= self@.take(i as int).push(self@[i as int]));
            }
            i += 1;
        }
        proof {
            use_type_invariant(self);
            assert(self@.take(self.ops.len() as int) =~= self@);
        }
        Expr { ops }
    }
}

/// The number that a single-number arena holds.
pub open spec fn spec_const_eval(ops: Seq<OpView>) -> Option<i64> {
    if ops.len() == 1 {
        match ops[0] {
            OpView::Number(n) => Some(n),
            _ => None,
        }
    } else {
        None
    }
}

/// The arenas of some expressions put behind one another, each with its
/// operands moved up by the operations in front of it.
pub open spec fn concat_arenas(arenas: Seq<Seq<OpView>>) -> Seq<OpView>
    decreases arenas.len(),
{
    if arenas.len() == 0 {
        Seq::empty()
    } else {
        let front = concat_arenas(arenas.drop_last());
        front + shift_ops(arenas.last(), front.len())
    }
}

/// Where the roots of the expressions stand after their arenas have been put
/// behind one another.
pub open spec fn arena_roots(arenas: Seq<Seq<OpView>>) -> Seq<OpRef>
    decreases arenas.len(),
{
    if arenas.len() == 0 {
        Seq::empty()
    } else {
        arena_roots(arenas.drop_last()).push(OpRef((concat_arenas(arenas).len() - 1) as usize))
    }
}

/// The views of some expressions.
pub open spec fn exprs_view(exprs: Seq<Expr>) -> Seq<Seq<OpView>> {
    exprs.map_values(|e: Expr| e@)
}

/// Putting a well-formed arena behind operations that refer backwards keeps
/// all references backward.
pub proof fn lemma_shift_refs(front: Seq<OpView>, ops: Seq<OpView>)
    requires
        forall|i: int| 0 <= i < front.len() ==> refs_below(#[trigger] front[i], i),
        forall|i: int| 0 <= i < ops.len() ==> refs_below(#[trigger] ops[i], i),
        front.len() + ops.len() <= usize::MAX,
    ensures
        forall|i: int|
            0 <= i < front.len() + ops.len() ==> refs_below(
                #[trigger] (front + shift_ops(ops, front.len()))[i],
                i,
            ),
{
    let all = front + shift_ops(ops, front.len());
    assert forall|i: int| 0 <= i < all.len() implies refs_below(#[trigger] all[i], i) by {
        if i < front.len() {
            assert(all[i] == front[i]);
        } else {
            let j = i - front.len();
            assert(all[i] == shift_op(ops[j], front.len()));
            assert(refs_below(ops[j], j));
            match ops[j] {
                OpView::Call(_, args) => {
                    let moved = all[i]->Call_1;
                    assert forall|x: int| 0 <= x < moved.len() implies (#[trigger] moved[x]).0
                        < i by {
                        assert(args[x].0 < j);
                    }
                },
                _ => {},
            }
        }
    }
}

/// The arenas of well-formed expressions, put behind one another, refer
/// backwards only, and each root stands within them.
pub proof fn lemma_concat_arenas(arenas: Seq<Seq<OpView>>)
    requires
        forall|k: int| 0 <= k < arenas.len() ==> arena_wf(#[trigger] arenas[k]),
        concat_arenas(arenas).len() <= usize::MAX,
    ensures
        forall|i: int|
            0 <= i < concat_arenas(arenas).len() ==> refs_below(
                #[trigger] concat_arenas(arenas)[i],
                i,
            ),
        arena_roots(arenas).len() == arenas.len(),
        forall|k: int|
            0 <= k < arenas.len() ==> (#[trigger] arena_roots(arenas)[k]).0 < concat_arenas(
                arenas,
            ).len(),
        arenas.len() <= concat_arenas(arenas).len(),
    decreases arenas.len(),
{
    if arenas.len() > 0 {
        let front = arenas.drop_last();
        assert forall|k: int| 0 <= k < front.len() implies arena_wf(#[trigger] front[k]) by {
            assert(arena_wf(arenas[k]));
        }
        assert(arena_wf(arenas[arenas.len() - 1]));
        lemma_concat_arenas(front);
        lemma_shift_refs(concat_arenas(front), arenas.last());
        assert forall|k: int| 0 <= k < arenas.len() implies (#[trigger] arena_roots(arenas)[k]).0
            < concat_arenas(arenas).len() by {
            if k < front.len() {
                assert(arena_roots(arenas)[k] == arena_roots(front)[k]);
            }
        }
    }
}

impl Op {
    /// The operation with every operand moved `by` positions up.
    pub fn shifted(&self, by: usize, limit: usize) -> (res: Op)
        requires
            refs_below(self@, limit as int),
            limit + by <= usize::MAX,
        ensures
            res@ == shift_op(self@, by as nat),
    {
        match self {
            Op::Number(n) => Op::Number(*n),
            Op::String(s) => Op::String(s.clone()),
            Op::Variable(name) => Op::Variable(*name),
            Op::Address(name) => Op::Address(*name),
            Op::Call(name, args) => {
                let mut moved: Vec<OpRef> = Vec::new();
                let mut j: usize = 0;
                let ghost target = args@.map_values(|r: OpRef| OpRef((r.0 + by) as usize));
                while j < args.len()
                    invariant
                        self@ == OpView::Call(*name, args@),
                        refs_below(self@, limit as int),
                        limit + by <= usize::MAX,
                        target == args@.map_values(|r: OpRef| OpRef((r.0 + by) as usize)),
                        j <= args.len(),
                        moved@ == target.take(j as int),
                    decreases args.len() - j,
                {
                    proof {
                        assert(self@->Call_1 == args@);
                        assert(self@->Call_1[j as int].0 < limit);
                        assert(target.take(j + 1) =~= target.take(j as int).push(target[j as int]));
                    }
                    moved.push(OpRef(args[j].0 + by));
                    j += 1;
                }
                proof {
                    assert(target.take(args.len() as int) =~= target);
                }
                Op::Call(*name, moved)
            },
            Op::Deref(x) => Op::Deref(OpRef(x.0 + by)),
            Op::Neg(x) => Op::Neg(OpRef(x.0 + by)),
            Op::Cpl(x) => Op::Cpl(OpRef(x.0 + by)),
            Op::LogicalOr(l, r) => Op::LogicalOr(OpRef(l.0 + by), OpRef(r.0 + by)),
            Op::LogicalAnd(l, r) => Op::LogicalAnd(OpRef(l.0 + by), OpRef(r.0 + by)),
            Op::Equ(l, r) => Op::Equ(OpRef(l.0 + by), OpRef(r.0 + by)),
            Op::NotEqu(l, r) => Op::NotEqu(OpRef(l.0 + by), OpRef(r.0 + by)),
            Op::LessThan(l, r) => Op::LessThan(OpRef(l.0 + by), OpRef(r.0 + by)),
            Op::LessThanEqu(l, r) => Op::LessThanEqu(OpRef(l.0 + by), OpRef(r.0 + by)),
            Op::GreaterThan(l, r) => Op::GreaterThan(OpRef(l.0 + by), OpRef(r.0 + by)),
            Op::GreaterThanEqu(l, r) => Op::GreaterThanEqu(OpRef(l.0 + by), OpRef(r.0 + by)),
            Op::BinaryOr(l, r) => Op::BinaryOr(OpRef(l.0 + by), OpRef(r.0 + by)),
            Op::BinaryXor(l, r) => Op::BinaryXor(OpRef(l.0 + by), OpRef(r.0 + by)),
            Op::BinaryAnd(l, r) => Op::BinaryAnd(OpRef(l.0 + by), OpRef(r.0 + by)),
            Op::ShiftLeft(l, r) => Op::ShiftLeft(OpRef(l.0 + by), OpRef(r.0 + by)),
            Op::ShiftRight(l, r) => Op::ShiftRight(OpRef(l.0 + by), OpRef(r.0 + by)),
            Op::Add(l, r) => Op::Add(OpRef(l.0 + by), OpRef(r.0 + by)),
            Op::Sub(l, r) => Op::Sub(OpRef(l.0 + by), OpRef(r.0 + by)),
            Op::Mul(l, r) => Op::Mul(OpRef(l.0 + by), OpRef(r.0 + by)),
            Op::Div(l, r) => Op::Div(OpRef(l.0 + by), OpRef(r.0 + by)),
            Op::Mod(l, r) => Op::Mod(OpRef(l.0 + by), OpRef(r.0 + by)),
        }
    }
}

/// Puts the operations of `ops` behind those of `front`, with their operands
/// moved up by the length of `front`.
fn append_shifted(front: &mut Vec<Op>, ops: &Vec<Op>)
    requires
        forall|i: int| 0 <= i < ops@.len() ==> refs_below(#[trigger] ops_view(ops@)[i], i),
        old(front)@.len() + ops@.len() <= usize::MAX,
    ensures
        ops_view(final(front)@) == ops_view(old(front)@) + shift_ops(
            ops_view(ops@),
            old(front)@.len(),
        ),
{
    let by = front.len();
    let ghost before = ops_view(front@);
    let ghost moved = shift_ops(ops_view(ops@), by as nat);
    let mut i: usize = 0;
    while i < ops.len()
        invariant
            forall|k: int| 0 <= k < ops@.len() ==> refs_below(#[trigger] ops_view(ops@)[k], k),
            by + ops@.len() <= usize::MAX,
            before.len() == by,
            moved == shift_ops(ops_view(ops@), by as nat),
            i <= ops.len(),
            ops_view(front@) == before + moved.take(i as int),
        decreases ops.len() - i,
    {
        proof {
            assert(refs_below(ops_view(ops@)[i as int], i as int));
            assert(ops_view(ops@)[i as int] == ops@[i as int]@);
        }
        let op = ops[i].shifted(by, i);
        let ghost earlier = front@;
        let ghost added = op@;
        front.push(op);
        proof {
            assert(moved[i as int] == added);
            assert(ops_view(front@) =~= ops_view(earlier).push(added));
            assert(moved.take(i + 1) =~= moved.take(i as int).push(moved[i as int]));
            assert(ops_view(front@) =~= before + moved.take(i + 1));
        }
        i += 1;
    }
    proof {
        assert(moved.take(ops.len() as int) =~= moved);
    }
}

impl Expr {
    /// The expression that is the number `n`.
    pub fn number(n: i64) -> (res: Expr)
        ensures
            res@ == seq![OpView::Number(n)],
    {
        let mut ops: Vec<Op> = Vec::new();
        ops.push(Op::Number(n));
        proof {
            assert(ops_view(ops@) =~= seq![OpView::Number(n)]);
        }
        Expr { ops }
    }

    /// The expression that is a string literal.
    pub fn string(text: String) -> (res: Expr)
        ensures
            res@ == seq![OpView::Text(text@)],
    {
        let ghost view = text@;
        let mut ops: Vec<Op> = Vec::new();
        ops.push(Op::String(text));
        proof {
            assert(ops_view(ops@) =~= seq![OpView::Text(view)]);
        }
        Expr { ops }
    }

    /// The expression that reads a variable.
    pub fn variable(name: Ident) -> (res: Expr)
        ensures
            res@ == seq![OpView::Variable(name)],
    {
        let mut ops: Vec<Op> = Vec::new();
        ops.push(Op::Variable(name));
        proof {
            assert(ops_view(ops@) =~= seq![OpView::Variable(name)]);
        }
        Expr { ops }
    }

    /// The expression that takes the address of a variable.
    pub fn address(variable: Ident) -> (res: Expr)
        ensures
            res@ == seq![OpView::Address(variable)],
    {
        let mut ops: Vec<Op> = Vec::new();
        ops.push(Op::Address(variable));
        proof {
            assert(ops_view(ops@) =~= seq![OpView::Address(variable)]);
        }
        Expr { ops }
    }

    /// The expression that reads through the pointer `expr`. It is never
    /// folded.
    pub fn deref(expr: Expr) -> (res: Expr)
        ensures
            res@ == expr@.push(OpView::Deref(OpRef((expr@.len() - 1) as usize))),
    {
        proof {
            use_type_invariant(&expr);
        }
        let ghost before = expr@;
        let mut ops = expr.ops;
        let idx = OpRef(ops.len() - 1);
        ops.push(Op::Deref(idx));
        proof {
            assert(ops_view(ops@) =~= before.push(OpView::Deref(idx)));
        }
        Expr { ops }
    }

    /// Applies a unary operator to an expression.
    ///
    /// Where the expression is a constant, the result is the constant that
    /// `const_eval` makes of it. Else `operator` is called with the position
    /// of the operand's root, and the operation that it returns is put behind
    /// the operand's arena. That operation may refer to nothing but operations
    /// of the operand.
    pub fn unary_op<Oper: FnOnce(OpRef) -> Op, ConstEval: FnOnce(i64) -> i64>(
        expr: Expr,
        operator: Oper,
        const_eval: ConstEval,
    ) -> (res: Expr)
        requires
            spec_const_eval(expr@) matches Some(n) ==> const_eval.requires((n,)),
            spec_const_eval(expr@) is None ==> {
                &&& operator.requires((OpRef((expr@.len() - 1) as usize),))
                &&& forall|op: Op|
                    operator.ensures((OpRef((expr@.len() - 1) as usize),), op) ==> refs_below(
                        op@,
                        expr@.len() as int,
                    )
            },
        ensures
            match spec_const_eval(expr@) {
                Some(n) => exists|m: i64|
                    const_eval.ensures((n,), m) && res@ == seq![OpView::Number(m)],
                None => exists|op: Op|
                    operator.ensures((OpRef((expr@.len() - 1) as usize),), op) && res@
                        == expr@.push(op@),
            },
    {
        proof {
            use_type_invariant(&expr);
        }
        match expr.const_eval() {
            Some(n) => {
                let m = const_eval(n);
                Expr::number(m)
            },
            None => {
                let ghost before = expr@;
                let mut ops = expr.ops;
                let idx = OpRef(ops.len() - 1);
                let op = operator(idx);
                let ghost added = op;
                ops.push(op);
                proof {
                    assert(ops_view(ops@) =~= before.push(added@));
                }
                Expr { ops }
            },
        }
    }

    /// Applies a binary operator to two expressions.
    ///
    /// Where both are constants, the result is the constant that `const_eval`
    /// makes of them. Else the arena of `rhs` is put behind that of `lhs`,
    /// `operator` is called with the positions of the two roots, and the
    /// operation that it returns is put behind both. That operation may refer
    /// to nothing but operations of the operands.
    pub fn binary_op<Oper: FnOnce(OpRef, OpRef) -> Op, ConstEval: FnOnce(i64, i64) -> i64>(
        lhs: Expr,
        rhs: Expr,
        operator: Oper,
        const_eval: ConstEval,
    ) -> (res: Expr)
        requires
            lhs@.len() + rhs@.len() < usize::MAX,
            spec_const_eval(lhs@) matches Some(p) ==> (spec_const_eval(rhs@) matches Some(q)
                ==> const_eval.requires((p, q))),
            !(spec_const_eval(lhs@) is Some && spec_const_eval(rhs@) is Some) ==> {
                &&& operator.requires(
                    (
                        OpRef((lhs@.len() - 1) as usize),
                        OpRef((lhs@.len() + rhs@.len() - 1) as usize),
                    ),
                )
                &&& forall|op: Op|
                    operator.ensures(
                        (
                            OpRef((lhs@.len() - 1) as usize),
                            OpRef((lhs@.len() + rhs@.len() - 1) as usize),
                        ),
                        op,
                    ) ==> refs_below(op@, (lhs@.len() + rhs@.len()) as int)
            },
        ensures
            spec_const_eval(lhs@) matches Some(p) ==> (spec_const_eval(rhs@) matches Some(q)
                ==> exists|m: i64| const_eval.ensures((p, q), m) && res@ == seq![OpView::Number(m)]),
            res.wf(),
            !(spec_const_eval(lhs@) is Some && spec_const_eval(rhs@) is Some) ==> exists|op: Op|
                operator.ensures(
                    (
                        OpRef((lhs@.len() - 1) as usize),
                        OpRef((lhs@.len() + rhs@.len() - 1) as usize),
                    ),
                    op,
                ) && res@ == (lhs@ + shift_ops(rhs@, lhs@.len())).push(op@),
    {
        proof {
            use_type_invariant(&lhs);
            use_type_invariant(&rhs);
        }
        match (lhs.const_eval(), rhs.const_eval()) {
            (Some(p), Some(q)) => {
                let m = const_eval(p, q);
                Expr::number(m)
            },
            _ => {
                let ghost left = lhs@;
                let ghost right = rhs@;
                let mut ops = lhs.ops;
                proof {
                    assert(ops_view(ops@).len() == ops@.len());
                    assert(ops_view(rhs.ops@).len() == rhs.ops@.len());
                }
                let left_idx = OpRef(ops.len() - 1);
                append_shifted(&mut ops, &rhs.ops);
                proof {
                    assert(ops_view(ops@).len() == ops@.len());
                    assert(ops@.len() == left.len() + right.len());
                }
                let right_idx = OpRef(ops.len() - 1);
                let ghost joined = ops_view(ops@);
                let op = operator(left_idx, right_idx);
                let ghost added = op;
                ops.push(op);
                proof {
                    lemma_shift_refs(left, right);
                    assert(ops_view(ops@) =~= joined.push(added@));
                }
                Expr { ops }
            },
        }
    }

    /// The call of `func` with the arguments `args`: the arenas of the
    /// arguments stand behind one another in the arguments' order, and the
    /// call, which refers to their roots, stands behind them.
    pub fn func_call(func: Ident, args: Vec<Expr>) -> (res: Expr)
        requires
            concat_arenas(exprs_view(args@)).len() < usize::MAX,
        ensures
            res@ == concat_arenas(exprs_view(args@)).push(
                OpView::Call(func, arena_roots(exprs_view(args@))),
            ),
    {
        let ghost arenas = exprs_view(args@);
        let mut ops: Vec<Op> = Vec::new();
        let mut roots: Vec<OpRef> = Vec::new();
        let mut k: usize = 0;
        proof {
            assert(arenas.take(0) =~= Seq::empty());
            assert(ops_view(ops@) =~= Seq::empty());
        }
        while k < args.len()
            invariant
                arenas == exprs_view(args@),
                concat_arenas(arenas).len() < usize::MAX,
                k <= args.len(),
                ops_view(ops@) == concat_arenas(arenas.take(k as int)),
                roots@ == arena_roots(arenas.take(k as int)),
                forall|i: int| 0 <= i < k ==> arena_wf(#[trigger] arenas[i]),
            decreases args.len() - k,
        {
            let arg = &args[k];
            proof {
                use_type_invariant(arg);
                assert(arenas[k as int] == arg@);
                assert(arenas.take(k + 1).drop_last() =~= arenas.take(k as int));
                assert(arenas.take(k + 1).last() == arenas[k as int]);
                lemma_concat_prefix(arenas, k + 1);
            }
            append_shifted(&mut ops, arg.ops());
            roots.push(OpRef(ops.len() - 1));
            k += 1;
        }
        proof {
            assert(arenas.take(args.len() as int) =~= arenas);
            lemma_concat_arenas(arenas);
        }
        let ghost joined = ops_view(ops@);
        let ghost call = OpView::Call(func, roots@);
        ops.push(Op::Call(func, roots));
        proof {
            assert(ops_view(ops@) =~= joined.push(call));
        }
        Expr { ops }
    }
}

/// The first arenas take no more room than all of them.
pub proof fn lemma_concat_prefix(arenas: Seq<Seq<OpView>>, k: int)
    requires
        0 <= k <= arenas.len(),
    ensures
        concat_arenas(arenas.take(k)).len() <= concat_arenas(arenas).len(),
    decreases arenas.len(),
{
    if k == arenas.len() {
        assert(arenas.take(k) =~= arenas);
    } else {
        assert(arenas.drop_last().take(k) =~= arenas.take(k));
        lemma_concat_prefix(arenas.drop_last(), k);
    }
}

} // verus!
