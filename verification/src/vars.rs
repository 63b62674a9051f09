//! The variable table: a first-fit allocator over the 256 bytes of a
//! function's frame.

use crate::diag::ErrorKind;
use crate::ident::Ident;
use crate::types::Type;
use vstd::prelude::*;

verus! {

/// The number of bytes in a function's frame.
pub const FRAME_SIZE: usize = 256;

/// A variable or temporary: a typed region of the frame that may have a name.
#[derive(Clone, Copy, Debug)]
pub struct Variable {
    pub name: Option<Ident>,
    pub t: Type,
}

/// The number of bytes that the variables occupy together.
pub open spec fn frame_size(vars: Seq<Variable>) -> nat
    decreases vars.len(),
{
    if vars.len() == 0 {
        0
    } else {
        frame_size(vars.drop_last()) + vars.last().t.size as nat
    }
}

/// The address of the `k`-th variable: the bytes of those before it.
pub open spec fn frame_addr(vars: Seq<Variable>, k: int) -> nat {
    frame_size(vars.take(k))
}

/// The variables fit the frame, and each has a size.
pub open spec fn frame_wf(vars: Seq<Variable>) -> bool {
    &&& frame_size(vars) <= FRAME_SIZE
    &&& forall|k: int| 0 <= k < vars.len() ==> (#[trigger] vars[k]).t.wf()
}

/// The variable that starts at address `a`, if one starts there.
pub open spec fn frame_slot(vars: Seq<Variable>, a: int) -> Option<Variable>
    decreases vars.len(),
{
    if vars.len() == 0 {
        None
    } else if a == frame_size(vars.drop_last()) {
        Some(vars.last())
    } else {
        frame_slot(vars.drop_last(), a)
    }
}

/// The address of the first variable that is called `name`.
pub open spec fn frame_lookup(vars: Seq<Variable>, name: Ident) -> Option<nat>
    decreases vars.len(),
{
    if vars.len() == 0 {
        None
    } else {
        match frame_lookup(vars.drop_last(), name) {
            Some(a) => Some(a),
            None => if vars.last().name == Some(name) {
                Some(frame_size(vars.drop_last()))
            } else {
                None
            },
        }
    }
}

/// The variables after the one that starts at `a` has been called `name`.
/// Nothing changes where no variable starts at `a`.
pub open spec fn frame_bind(vars: Seq<Variable>, a: int, name: Ident) -> Seq<Variable>
    decreases vars.len(),
{
    if vars.len() == 0 {
        vars
    } else if a == frame_size(vars.drop_last()) {
        vars.drop_last().push(Variable { name: Some(name), t: vars.last().t })
    } else {
        frame_bind(vars.drop_last(), a, name).push(vars.last())
    }
}

/// Allocation: a new anonymous variable behind the others, at the first free
/// address, where the frame still has room for it.
pub open spec fn frame_alloc(vars: Seq<Variable>, t: Type) -> Result<(u8, Seq<Variable>), ErrorKind> {
    if frame_size(vars) + t.size <= FRAME_SIZE {
        Ok((frame_size(vars) as u8, vars.push(Variable { name: None, t })))
    } else {
        Err(ErrorKind::OutOfVariableSpace)
    }
}

/// Allocating one variable for each type in turn: the addresses handed out
/// and the variables afterwards, or the error of the first that does not fit.
pub open spec fn frame_alloc_all(vars: Seq<Variable>, types: Seq<Type>) -> Result<
    (Seq<u8>, Seq<Variable>),
    ErrorKind,
>
    decreases types.len(),
{
    if types.len() == 0 {
        Ok((Seq::empty(), vars))
    } else {
        match frame_alloc_all(vars, types.drop_last()) {
            Err(e) => Err(e),
            Ok((addrs, vars1)) => match frame_alloc(vars1, types.last()) {
                Err(e) => Err(e),
                Ok((a, vars2)) => Ok((addrs.push(a), vars2)),
            },
        }
    }
}

/// The sizes of the types, added up.
pub open spec fn total_size(types: Seq<Type>) -> nat
    decreases types.len(),
{
    if types.len() == 0 {
        0
    } else {
        total_size(types.drop_last()) + types.last().size as nat
    }
}

pub proof fn lemma_frame_size_take(vars: Seq<Variable>, k: int)
    requires
        0 <= k <= vars.len(),
    ensures
        frame_size(vars.take(k)) <= frame_size(vars),
        k < vars.len() ==> frame_size(vars.take(k + 1)) == frame_size(vars.take(k)) + vars[k].t.size,
    decreases vars.len(),
{
    if k < vars.len() {
        assert(vars.take(k + 1).drop_last() =~= vars.take(k));
        assert(vars.take(k + 1).last() == vars[k]);
        if k + 1 < vars.len() {
            assert(vars.drop_last().take(k + 1) =~= vars.take(k + 1));
            assert(vars.drop_last().take(k) =~= vars.take(k));
            lemma_frame_size_take(vars.drop_last(), k + 1);
            lemma_frame_size_take(vars.drop_last(), k);
        } else {
            assert(vars.take(k + 1) =~= vars);
        }
    } else {
        assert(vars.take(k) =~= vars);
    }
}

/// No variable starts at or behind the end of the variables.
pub proof fn lemma_slot_beyond(vars: Seq<Variable>, a: int)
    requires
        frame_wf(vars),
        a >= frame_size(vars),
    ensures
        frame_slot(vars, a) is None,
    decreases vars.len(),
{
    if vars.len() > 0 {
        assert(vars.last().t.wf());
        assert forall|k: int| 0 <= k < vars.drop_last().len() implies (#[trigger] vars.drop_last()[k]).t.wf() by {
            assert(vars[k].t.wf());
        }
        lemma_slot_beyond(vars.drop_last(), a);
    }
}

/// The `k`-th variable starts at its address.
pub proof fn lemma_slot_at_start(vars: Seq<Variable>, k: int)
    requires
        frame_wf(vars),
        0 <= k < vars.len(),
    ensures
        frame_slot(vars, frame_addr(vars, k) as int) == Some(vars[k]),
        frame_addr(vars, k) + vars[k].t.size <= frame_size(vars),
    decreases vars.len(),
{
    lemma_frame_size_take(vars, k);
    lemma_frame_size_take(vars, k + 1);
    if k == vars.len() - 1 {
        assert(vars.take(k) =~= vars.drop_last());
    } else {
        assert(vars.drop_last().take(k) =~= vars.take(k));
        assert(vars.last().t.wf());
        assert forall|j: int| 0 <= j < vars.drop_last().len() implies (#[trigger] vars.drop_last()[j]).t.wf() by {
            assert(vars[j].t.wf());
        }
        lemma_slot_at_start(vars.drop_last(), k);
        assert(vars[k].t.wf());
    }
}

/// A variable that starts at `a` lies in the frame, and `a` is below the end
/// of the variables.
pub proof fn lemma_slot_in_frame(vars: Seq<Variable>, a: int)
    requires
        frame_wf(vars),
        frame_slot(vars, a) is Some,
    ensures
        0 <= a,
        a + frame_slot(vars, a).unwrap().t.size <= frame_size(vars),
        frame_slot(vars, a).unwrap().t.wf(),
    decreases vars.len(),
{
    if vars.len() > 0 {
        assert(vars.last().t.wf());
        if a != frame_size(vars.drop_last()) {
            assert forall|j: int| 0 <= j < vars.drop_last().len() implies (#[trigger] vars.drop_last()[j]).t.wf() by {
                assert(vars[j].t.wf());
            }
            lemma_slot_in_frame(vars.drop_last(), a);
        }
    }
}

/// What was found among the first `k` variables is found among all of them.
pub proof fn lemma_lookup_prefix(vars: Seq<Variable>, k: int, name: Ident)
    requires
        0 <= k <= vars.len(),
        frame_lookup(vars.take(k), name) is Some,
    ensures
        frame_lookup(vars, name) == frame_lookup(vars.take(k), name),
    decreases vars.len(),
{
    if k == vars.len() {
        assert(vars.take(k) =~= vars);
    } else {
        assert(vars.drop_last().take(k) =~= vars.take(k));
        lemma_lookup_prefix(vars.drop_last(), k, name);
    }
}

/// Naming a variable keeps every size and address, and changes the one slot.
pub proof fn lemma_bind(vars: Seq<Variable>, a: int, name: Ident)
    requires
        frame_wf(vars),
    ensures
        frame_bind(vars, a, name).len() == vars.len(),
        frame_size(frame_bind(vars, a, name)) == frame_size(vars),
        frame_wf(frame_bind(vars, a, name)),
        forall|k: int|
            0 <= k < vars.len() ==> (#[trigger] frame_bind(vars, a, name)[k]).t == vars[k].t,
        forall|b: int|
            #![trigger frame_slot(frame_bind(vars, a, name), b)]
            frame_slot(frame_bind(vars, a, name), b) == if b == a && frame_slot(vars, a) is Some {
                Some(Variable { name: Some(name), t: frame_slot(vars, a).unwrap().t })
            } else {
                frame_slot(vars, b)
            },
    decreases vars.len(),
{
    let bound = frame_bind(vars, a, name);
    if vars.len() > 0 {
        let front = vars.drop_last();
        assert(vars.last().t.wf());
        assert forall|j: int| 0 <= j < front.len() implies (#[trigger] front[j]).t.wf() by {
            assert(vars[j].t.wf());
        }
        lemma_bind(front, a, name);
        if a == frame_size(front) {
            let renamed = Variable { name: Some(name), t: vars.last().t };
            assert(bound == front.push(renamed));
            assert(bound.drop_last() =~= front);
            assert(bound.last() == renamed);
            assert forall|b: int| #![trigger frame_slot(bound, b)] frame_slot(bound, b) == if b == a {
                Some(renamed)
            } else {
                frame_slot(vars, b)
            } by {}
        } else {
            let inner = frame_bind(front, a, name);
            assert(bound == inner.push(vars.last()));
            assert(bound.drop_last() =~= inner);
            assert(bound.last() == vars.last());
            assert(frame_slot(vars, a) == frame_slot(front, a));
            assert forall|b: int| #![trigger frame_slot(bound, b)] frame_slot(bound, b) == if b == a
                && frame_slot(vars, a) is Some {
                Some(Variable { name: Some(name), t: frame_slot(vars, a).unwrap().t })
            } else {
                frame_slot(vars, b)
            } by {
                if b == frame_size(front) {
                } else {
                    assert(frame_slot(bound, b) == frame_slot(inner, b));
                }
            }
        }
        assert forall|k: int| 0 <= k < bound.len() implies (#[trigger] bound[k]).t.wf() by {
            assert(bound[k].t == vars[k].t);
            assert(vars[k].t.wf());
        }
    }
}

/// Allocation into a fresh frame hands out consecutive addresses: as long as
/// the sizes add up to no more than the frame, every allocation succeeds and
/// every variable lies in the frame.
pub proof fn lemma_alloc_all_fits(types: Seq<Type>)
    requires
        forall|i: int| 0 <= i < types.len() ==> (#[trigger] types[i]).wf(),
        total_size(types) <= FRAME_SIZE,
    ensures
        frame_alloc_all(Seq::empty(), types) is Ok,
        ({
            let (addrs, vars) = frame_alloc_all(Seq::empty(), types).unwrap();
            &&& addrs.len() == types.len()
            &&& vars.len() == types.len()
            &&& frame_wf(vars)
            &&& frame_size(vars) == total_size(types)
            &&& forall|i: int|
                0 <= i < types.len() ==> {
                    &&& (#[trigger] addrs[i]) + types[i].size <= FRAME_SIZE
                    &&& addrs[i] == total_size(types.take(i))
                    &&& vars[i] == Variable { name: None, t: types[i] }
                }
        }),
    decreases types.len(),
{
    if types.len() > 0 {
        let front = types.drop_last();
        assert forall|i: int| 0 <= i < front.len() implies (#[trigger] front[i]).wf() by {
            assert(types[i].wf());
        }
        lemma_alloc_all_fits(front);
        let (addrs0, vars0) = frame_alloc_all(Seq::empty(), front).unwrap();
        let (addrs, vars) = frame_alloc_all(Seq::empty(), types).unwrap();
        assert(vars.drop_last() =~= vars0);
        assert(types.last().wf());
        assert forall|i: int| 0 <= i < types.len() implies {
            &&& (#[trigger] addrs[i]) + types[i].size <= FRAME_SIZE
            &&& addrs[i] == total_size(types.take(i))
            &&& vars[i] == Variable { name: None, t: types[i] }
        } by {
            if i < front.len() {
                assert(front.take(i) =~= types.take(i));
                assert(addrs[i] == addrs0[i]);
            } else {
                assert(types.take(i) =~= front);
            }
        }
        assert forall|k: int| 0 <= k < vars.len() implies (#[trigger] vars[k]).t.wf() by {
            assert(addrs[k] + types[k].size <= FRAME_SIZE);
            assert(vars[k].t == types[k]);
        }
    }
}

/// Variables that need more than the frame together cannot all be allocated:
/// the first that does not fit is refused for want of space.
pub proof fn lemma_alloc_all_overflows(types: Seq<Type>)
    requires
        forall|i: int| 0 <= i < types.len() ==> (#[trigger] types[i]).wf(),
        total_size(types) > FRAME_SIZE,
    ensures
        frame_alloc_all(Seq::empty(), types) == Err::<(Seq<u8>, Seq<Variable>), ErrorKind>(
            ErrorKind::OutOfVariableSpace,
        ),
    decreases types.len(),
{
    if types.len() > 0 {
        let front = types.drop_last();
        assert forall|i: int| 0 <= i < front.len() implies (#[trigger] front[i]).wf() by {
            assert(types[i].wf());
        }
        if total_size(front) > FRAME_SIZE {
            lemma_alloc_all_overflows(front);
        } else {
            lemma_alloc_all_fits(front);
        }
    }
}

/// A variable that was allocated and then named is found under its name at
/// the address that the allocation returned, provided that no earlier
/// variable has the name: lookup finds the first variable of a name.
pub proof fn lemma_lookup_after_bind(vars: Seq<Variable>, t: Type, name: Ident)
    requires
        frame_wf(vars),
        t.wf(),
        frame_alloc(vars, t) is Ok,
        frame_lookup(vars, name) is None,
    ensures
        ({
            let (a, allocated) = frame_alloc(vars, t).unwrap();
            frame_lookup(frame_bind(allocated, a as int, name), name) == Some(a as nat)
        }),
{
    let (a, allocated) = frame_alloc(vars, t).unwrap();
    assert(allocated.drop_last() =~= vars);
    let bound = frame_bind(allocated, a as int, name);
    assert(bound.drop_last() =~= vars);
}

/// Later allocations leave every lookup as it was.
pub proof fn lemma_lookup_after_alloc(vars: Seq<Variable>, t: Type, name: Ident)
    requires
        frame_alloc(vars, t) is Ok,
    ensures
        frame_lookup(frame_alloc(vars, t).unwrap().1, name) == frame_lookup(vars, name),
{
    let allocated = frame_alloc(vars, t).unwrap().1;
    assert(allocated.drop_last() =~= vars);
}

/// Naming a variable leaves a lookup as it was where the variable found is not
/// the one that gets another name, and where the same name goes to a variable
/// that is not in front of the one found.
pub proof fn lemma_lookup_after_other_bind(vars: Seq<Variable>, b: int, other: Ident, name: Ident)
    requires
        frame_wf(vars),
        frame_lookup(vars, name) is Some,
        other == name ==> frame_lookup(vars, name).unwrap() <= b,
        other != name ==> frame_lookup(vars, name).unwrap() != b,
    ensures
        frame_lookup(frame_bind(vars, b, other), name) == frame_lookup(vars, name),
    decreases vars.len(),
{
    if vars.len() > 0 {
        let front = vars.drop_last();
        let bound = frame_bind(vars, b, other);
        assert forall|j: int| 0 <= j < front.len() implies (#[trigger] front[j]).t.wf() by {
            assert(vars[j].t.wf());
        }
        assert(vars.last().t.wf());
        if b == frame_size(front) {
            assert(bound.drop_last() =~= front);
            assert(bound.last().name == Some(other));
        } else {
            assert(bound.drop_last() =~= frame_bind(front, b, other));
            assert(bound.last() == vars.last());
            lemma_bind(front, b, other);
            if frame_lookup(front, name) is Some {
                lemma_lookup_after_other_bind(front, b, other, name);
            } else {
                if other == name {
                    lemma_slot_beyond(front, b);
                }
                lemma_lookup_unbound(front, b, other, name);
            }
        }
    }
}

/// Naming a variable `other` does not make any variable answer to `name`,
/// unless `other` is `name` and a variable starts at the address.
pub proof fn lemma_lookup_unbound(vars: Seq<Variable>, b: int, other: Ident, name: Ident)
    requires
        frame_lookup(vars, name) is None,
        other != name || frame_slot(vars, b) is None,
    ensures
        frame_lookup(frame_bind(vars, b, other), name) is None,
    decreases vars.len(),
{
    if vars.len() > 0 {
        let front = vars.drop_last();
        let bound = frame_bind(vars, b, other);
        if b == frame_size(front) {
            assert(bound.drop_last() =~= front);
        } else {
            assert(bound.drop_last() =~= frame_bind(front, b, other));
            lemma_lookup_unbound(front, b, other, name);
        }
    }
}

/// The later variables are the earlier ones and further ones behind them.
pub open spec fn frame_extends(before: Seq<Variable>, after: Seq<Variable>) -> bool {
    &&& before.len() <= after.len()
    &&& forall|k: int| 0 <= k < before.len() ==> #[trigger] after[k] == before[k]
}

/// Variables that come behind the others take no bytes away from them.
pub proof fn lemma_extends_size(before: Seq<Variable>, after: Seq<Variable>)
    requires
        frame_extends(before, after),
    ensures
        frame_size(before) <= frame_size(after),
    decreases after.len(),
{
    if after.len() == before.len() {
        assert(after =~= before);
    } else {
        lemma_extends_size(before, after.drop_last());
    }
}

/// A frame that fits stays fitting without its last variables.
pub proof fn lemma_extends_wf(before: Seq<Variable>, after: Seq<Variable>)
    requires
        frame_wf(after),
        frame_extends(before, after),
    ensures
        frame_wf(before),
{
    lemma_extends_size(before, after);
    assert forall|k: int| 0 <= k < before.len() implies (#[trigger] before[k]).t.wf() by {
        assert(after[k].t.wf());
    }
}

/// A variable stays where it starts when further variables are allocated.
pub proof fn lemma_extends_slot(before: Seq<Variable>, after: Seq<Variable>, a: int)
    requires
        frame_wf(after),
        frame_extends(before, after),
        frame_slot(before, a) is Some,
    ensures
        frame_slot(after, a) == frame_slot(before, a),
    decreases after.len(),
{
    if after.len() == before.len() {
        assert(after =~= before);
    } else {
        let front = after.drop_last();
        lemma_extends_wf(front, after);
        lemma_extends_slot(before, front, a);
        lemma_slot_in_frame(front, a);
    }
}

/// A variable that is found under a name starts at the address found.
pub proof fn lemma_lookup_is_start(vars: Seq<Variable>, name: Ident)
    requires
        frame_wf(vars),
        frame_lookup(vars, name) is Some,
    ensures
        frame_slot(vars, frame_lookup(vars, name).unwrap() as int) is Some,
        frame_lookup(vars, name).unwrap() < FRAME_SIZE,
    decreases vars.len(),
{
    if vars.len() > 0 {
        let front = vars.drop_last();
        assert(frame_extends(front, vars));
        lemma_extends_wf(front, vars);
        assert(vars.last().t.wf());
        if frame_lookup(front, name) is Some {
            lemma_lookup_is_start(front, name);
            lemma_extends_slot(front, vars, frame_lookup(front, name).unwrap() as int);
        }
    }
}

/// The variables of one function: a buffer with one entry for each byte of
/// the frame, which holds a variable at the address where it starts.
pub struct VariableTable {
    slots: Vec<Option<Variable>>,
    vars: Ghost<Seq<Variable>>,
}

impl View for VariableTable {
    type V = Seq<Variable>;

    /// The variables in the order of their allocation, which is the order of
    /// their addresses.
    closed spec fn view(&self) -> Seq<Variable> {
        self.vars@
    }
}

impl VariableTable {
    /// The buffer holds each variable at its address and nothing elsewhere.
    pub closed spec fn repr_ok(self) -> bool {
        &&& self.slots@.len() == FRAME_SIZE
        &&& forall|a: int| 0 <= a < FRAME_SIZE ==> #[trigger] self.slots@[a] == frame_slot(self.vars@, a)
    }

    /// The variables do not overlap and lie in the frame.
    pub open spec fn wf(self) -> bool {
        &&& self.repr_ok()
        &&& frame_wf(self@)
    }

    /// A table without variables.
    pub fn new() -> (res: VariableTable)
        ensures
            res.wf(),
            res@ == Seq::<Variable>::empty(),
    {
        let mut slots: Vec<Option<Variable>> = Vec::new();
        let mut i: usize = 0;
        while i < FRAME_SIZE
            invariant
                i <= FRAME_SIZE,
                slots@.len() == i,
                forall|a: int| 0 <= a < i ==> (#[trigger] slots@[a]) is None,
            decreases FRAME_SIZE - i,
        {
            slots.push(None);
            i += 1;
        }
        VariableTable { slots, vars: Ghost(Seq::empty()) }
    }

    /// Allocates an anonymous variable of type `t` at the first free address.
    /// The scan skips each variable by its size; the variable must fit between
    /// the first free address and the end of the frame.
    pub fn allocate(&mut self, t: Type) -> (res: Result<u8, ErrorKind>)
        requires
            old(self).wf(),
            t.wf(),
        ensures
            final(self).wf(),
            match frame_alloc(old(self)@, t) {
                Ok((a, vars)) => res == Ok::<u8, ErrorKind>(a) && final(self)@ == vars,
                Err(e) => res == Err::<u8, ErrorKind>(e) && final(self)@ == old(self)@,
            },
    {
        let mut i: usize = 0;
        let ghost mut k: int = 0;
        let ghost vars = self.vars@;
        proof {
            assert(vars.take(0) =~= Seq::<Variable>::empty());
        }
        while i < FRAME_SIZE
            invariant
                *self == *old(self),
                self.wf(),
                vars == self.vars@,
                t.wf(),
                0 <= k <= vars.len(),
                i == frame_addr(vars, k),
            decreases FRAME_SIZE - i,
        {
            proof {
                lemma_frame_size_take(vars, k);
                if k < vars.len() {
                    lemma_slot_at_start(vars, k);
                } else {
                    assert(vars.take(k) =~= vars);
                    lemma_slot_beyond(vars, i as int);
                }
            }
            match self.slots[i] {
                Some(var) => {
                    i += var.t.size as usize;
                    proof {
                        k = k + 1;
                    }
                },
                None => {
                    if t.size as usize > FRAME_SIZE - i {
                        return Err(ErrorKind::OutOfVariableSpace);
                    }
                    let var = Variable { name: None, t };
                    self.slots.set(i, Some(var));
                    self.vars = Ghost(vars.push(var));
                    proof {
                        assert(vars.push(var).drop_last() =~= vars);
                        assert forall|j: int| 0 <= j < self.vars@.len() implies (#[trigger] self.vars@[j]).t.wf() by {
                            if j < vars.len() {
                                assert(vars[j].t.wf());
                            }
                        }
                    }
                    return Ok(i as u8);
                },
            }
        }
        proof {
            lemma_frame_size_take(vars, k);
        }
        Err(ErrorKind::OutOfVariableSpace)
    }

    /// Finds the first variable that is called `name`. The scan skips each
    /// variable by its size and walks through free bytes one by one.
    pub fn lookup(&self, name: Ident) -> (res: Result<u8, ErrorKind>)
        requires
            self.wf(),
        ensures
            res == match frame_lookup(self@, name) {
                Some(a) => Ok::<u8, ErrorKind>(a as u8),
                None => Err::<u8, ErrorKind>(ErrorKind::UnknownVariable(name)),
            },
            frame_lookup(self@, name) matches Some(a) ==> a < FRAME_SIZE,
    {
        let mut i: usize = 0;
        let ghost mut k: int = 0;
        let ghost vars = self.vars@;
        proof {
            assert(vars.take(0) =~= Seq::<Variable>::empty());
        }
        while i < FRAME_SIZE
            invariant
                self.wf(),
                vars == self.vars@,
                0 <= k <= vars.len(),
                i >= frame_addr(vars, k),
                k < vars.len() ==> i == frame_addr(vars, k),
                frame_lookup(vars.take(k), name) is None,
            decreases FRAME_SIZE - i,
        {
            proof {
                lemma_frame_size_take(vars, k);
                if k < vars.len() {
                    lemma_slot_at_start(vars, k);
                } else {
                    assert(vars.take(k) =~= vars);
                    lemma_slot_beyond(vars, i as int);
                }
            }
            if let Some(variable) = self.slots[i] {
                proof {
                    assert(vars.take(k + 1).drop_last() =~= vars.take(k));
                    assert(vars.take(k + 1).last() == vars[k]);
                }
                if let Some(variable_name) = variable.name {
                    if variable_name == name {
                        proof {
                            lemma_lookup_prefix(vars, k + 1, name);
                        }
                        return Ok(i as u8);
                    }
                }
                i += variable.t.size as usize;
                proof {
                    k = k + 1;
                }
            } else {
                i += 1;
            }
        }
        proof {
            lemma_frame_size_take(vars, k);
            if k < vars.len() {
                lemma_slot_at_start(vars, k);
                assert(vars[k].t.wf());
            }
            assert(vars.take(k) =~= vars);
        }
        Err(ErrorKind::UnknownVariable(name))
    }

    /// Whether a variable starts at the address.
    pub fn is_start(&self, a: u8) -> (res: bool)
        requires
            self.wf(),
        ensures
            res == (frame_slot(self@, a as int) is Some),
    {
        self.slots[a as usize].is_some()
    }

    /// The type of the variable that starts at `a`.
    pub fn type_of(&self, a: u8) -> (res: Type)
        requires
            self.wf(),
            frame_slot(self@, a as int) is Some,
        ensures
            res == frame_slot(self@, a as int).unwrap().t,
    {
        match self.slots[a as usize] {
            Some(var) => var.t,
            None => vstd::pervasive::unreached(),
        }
    }

    /// The name of the variable that starts at `a`, if it has one.
    pub fn name_of(&self, a: u8) -> (res: Option<Ident>)
        requires
            self.wf(),
            frame_slot(self@, a as int) is Some,
        ensures
            res == frame_slot(self@, a as int).unwrap().name,
    {
        match self.slots[a as usize] {
            Some(var) => var.name,
            None => vstd::pervasive::unreached(),
        }
    }

    /// Gives the variable that starts at `a` the name `name`. The variable
    /// keeps its address and type.
    pub fn bind(&mut self, a: u8, name: Ident)
        requires
            old(self).wf(),
            frame_slot(old(self)@, a as int) is Some,
        ensures
            final(self).wf(),
            final(self)@ == frame_bind(old(self)@, a as int, name),
    {
        let ghost vars = self.vars@;
        let t = self.type_of(a);
        self.slots.set(a as usize, Some(Variable { name: Some(name), t }));
        self.vars = Ghost(frame_bind(vars, a as int, name));
        proof {
            lemma_bind(vars, a as int, name);
        }
    }

    /// The number of bytes in use.
    pub fn used(&self) -> (res: usize)
        requires
            self.wf(),
        ensures
            res == frame_size(self@),
    {
        let mut i: usize = 0;
        let ghost mut k: int = 0;
        let ghost vars = self.vars@;
        proof {
            assert(vars.take(0) =~= Seq::<Variable>::empty());
        }
        while i < FRAME_SIZE
            invariant
                self.wf(),
                vars == self.vars@,
                0 <= k <= vars.len(),
                i == frame_addr(vars, k),
            decreases FRAME_SIZE - i,
        {
            proof {
                lemma_frame_size_take(vars, k);
                if k < vars.len() {
                    lemma_slot_at_start(vars, k);
                } else {
                    assert(vars.take(k) =~= vars);
                    lemma_slot_beyond(vars, i as int);
                }
            }
            match self.slots[i] {
                Some(var) => {
                    i += var.t.size as usize;
                    proof {
                        k = k + 1;
                    }
                },
                None => {
                    return i;
                },
            }
        }
        proof {
            lemma_frame_size_take(vars, k);
        }
        i
    }
}

} // verus!
