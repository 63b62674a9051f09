//! Environments: named tables of definitions, each of which is an opcode of
//! its own, an alias for another definition, or a macro.

use crate::diag::{Diagnostic, ErrorKind, Warning};
use crate::expr::spec_const_eval;
use crate::ident::{name_of, Ident, Interner};
use crate::parsing::{
    alias_params_view, duplicate_alias_params, duplicate_params, AliasParam, AliasParamView,
    DefKind, DefParam, DefParamKind, Env, EnvStatement, EnvStatementKind, Root,
};
use vstd::prelude::*;
use vstd::string::*;

verus! {

/// How a function of an environment is carried out.
#[derive(Debug)]
pub enum FuncKind {
    /// The function has the opcode `id`.
    Normal { id: u8 },
    /// The function stands for `target`, which gets `target_args`.
    Alias { target: Ident, target_args: Vec<AliasParam> },
    /// The function is written out as the text of `target`.
    Macro { target: Ident, varargs: bool },
}

/// A function of an environment: its parameters and how it is carried out.
#[derive(Debug)]
pub struct Func {
    pub args: Vec<DefParam>,
    pub kind: FuncKind,
}

/// [`FuncKind`] as a mathematical value.
pub enum FuncKindView {
    Normal { id: u8 },
    Alias { target: Ident, target_args: Seq<AliasParamView> },
    Macro { target: Ident, varargs: bool },
}

/// [`Func`] as a mathematical value.
pub struct FuncView {
    pub args: Seq<DefParam>,
    pub kind: FuncKindView,
}

/// A definition with its name.
pub struct EntryView {
    pub name: Ident,
    pub func: FuncView,
}

/// An environment as a mathematical value: its name, its definitions in the
/// order in which they were made, and the size of its variable pool.
pub struct EnvView {
    pub name: Ident,
    pub entries: Seq<EntryView>,
    pub pool: u16,
}

impl View for FuncKind {
    type V = FuncKindView;

    open spec fn view(&self) -> FuncKindView {
        match *self {
            FuncKind::Normal { id } => FuncKindView::Normal { id },
            FuncKind::Alias { target, target_args } => FuncKindView::Alias {
                target,
                target_args: alias_params_view(target_args@),
            },
            FuncKind::Macro { target, varargs } => FuncKindView::Macro { target, varargs },
        }
    }
}

impl View for Func {
    type V = FuncView;

    open spec fn view(&self) -> FuncView {
        FuncView { args: self.args@, kind: self.kind@ }
    }
}

/// The number of return parameters among `args`.
pub open spec fn returns_count(args: Seq<DefParam>) -> nat
    decreases args.len(),
{
    if args.len() == 0 {
        0
    } else {
        returns_count(args.drop_last()) + if args.last().kind == DefParamKind::Return {
            1nat
        } else {
            0nat
        }
    }
}

/// The number of parameters among `args` that take a value from the caller.
pub open spec fn values_count(args: Seq<DefParam>) -> nat
    decreases args.len(),
{
    if args.len() == 0 {
        0
    } else {
        values_count(args.drop_last()) + if args.last().kind == DefParamKind::Return {
            0nat
        } else {
            1nat
        }
    }
}

/// Whether the entries define `name`.
pub open spec fn has_entry(entries: Seq<EntryView>, name: Ident) -> bool {
    exists|i: int| 0 <= i < entries.len() && (#[trigger] entries[i]).name == name
}

/// Where the entries define `name`.
pub open spec fn entry_pos(entries: Seq<EntryView>, name: Ident) -> int {
    choose|i: int| 0 <= i < entries.len() && (#[trigger] entries[i]).name == name
}

/// The definition of `name`, if there is one.
pub open spec fn spec_lookup(entries: Seq<EntryView>, name: Ident) -> Option<FuncView> {
    if has_entry(entries, name) {
        Some(entries[entry_pos(entries, name)].func)
    } else {
        None
    }
}

/// No name is defined twice.
pub open spec fn names_distinct(entries: Seq<EntryView>) -> bool {
    forall|i: int, j: int|
        0 <= i < entries.len() && 0 <= j < entries.len() && i != j ==> (#[trigger] entries[i]).name
            != (#[trigger] entries[j]).name
}

/// No opcode belongs to two definitions.
pub open spec fn ids_distinct(entries: Seq<EntryView>) -> bool {
    forall|i: int, j: int|
        0 <= i < entries.len() && 0 <= j < entries.len() && i != j ==> !({
            &&& (#[trigger] entries[i]).func.kind matches FuncKindView::Normal { id: a }
            &&& (#[trigger] entries[j]).func.kind matches FuncKindView::Normal { id: b }
            &&& a == b
        })
}

/// What holds of the definitions of every environment: no name and no opcode
/// occurs twice, and no definition has more than one return parameter.
pub open spec fn entries_wf(entries: Seq<EntryView>) -> bool {
    &&& names_distinct(entries)
    &&& ids_distinct(entries)
    &&& forall|i: int|
        0 <= i < entries.len() ==> returns_count((#[trigger] entries[i]).func.args) <= 1
}

/// Follows aliases from `name` to a definition with an opcode of its own, in
/// at most `fuel` steps.
pub open spec fn spec_resolve(entries: Seq<EntryView>, name: Ident, fuel: nat) -> Result<
    Ident,
    ErrorKind,
>
    decreases fuel,
{
    match spec_lookup(entries, name) {
        None => Err(ErrorKind::UnknownDefinition(name)),
        Some(func) => match func.kind {
            FuncKindView::Normal { .. } => Ok(name),
            FuncKindView::Macro { .. } => Err(ErrorKind::MacroTarget(name)),
            FuncKindView::Alias { target, .. } => if fuel == 0 {
                Err(ErrorKind::AliasCycle(name))
            } else {
                spec_resolve(entries, target, (fuel - 1) as nat)
            },
        },
    }
}

/// The name under which the assembler knows a definition: the environment's
/// name, an `@` and the definition's name.
pub open spec fn spec_qualified(names: Seq<Seq<char>>, env: Ident, func: Ident) -> Result<
    Seq<char>,
    ErrorKind,
> {
    match name_of(names, env) {
        None => Err(ErrorKind::UnknownIdent(env)),
        Some(e) => match name_of(names, func) {
            None => Err(ErrorKind::UnknownIdent(func)),
            Some(f) => Ok(e + seq!['@'] + f),
        },
    }
}

impl EnvView {
    /// The definition with an opcode that `name` stands for. A chain of
    /// aliases that is longer than the environment has definitions runs in a
    /// circle.
    pub open spec fn resolve(self, name: Ident) -> Result<Ident, ErrorKind> {
        spec_resolve(self.entries, name, self.entries.len())
    }

    /// The assembler's name for the opcode that `name` stands for.
    pub open spec fn expand(self, names: Seq<Seq<char>>, name: Ident) -> Result<
        Seq<char>,
        ErrorKind,
    > {
        match self.resolve(name) {
            Err(e) => Err(e),
            Ok(target) => spec_qualified(names, self.name, target),
        }
    }

    /// The opcode that `name` stands for.
    pub open spec fn opcode_id(self, name: Ident) -> Result<u8, ErrorKind> {
        match self.resolve(name) {
            Err(e) => Err(e),
            Ok(target) => match spec_lookup(self.entries, target) {
                Some(FuncView { kind: FuncKindView::Normal { id }, .. }) => Ok(id),
                _ => Err(ErrorKind::UnknownDefinition(target)),
            },
        }
    }

    pub open spec fn wf(self) -> bool {
        entries_wf(self.entries)
    }
}

/// A definition with its name.
#[derive(Debug)]
pub struct Entry {
    name: Ident,
    func: Func,
}

impl View for Entry {
    type V = EntryView;

    closed spec fn view(&self) -> EntryView {
        EntryView { name: self.name, func: self.func@ }
    }
}

/// The views of a list of entries.
pub open spec fn entries_view(entries: Seq<Entry>) -> Seq<EntryView> {
    entries.map_values(|e: Entry| e@)
}

/// An environment: a named table of definitions and the size of a pool of
/// variables that the environment's scripts share.
#[derive(Debug)]
pub struct Environment {
    name: Ident,
    entries: Vec<Entry>,
    pool: u16,
}

impl View for Environment {
    type V = EnvView;

    closed spec fn view(&self) -> EnvView {
        EnvView { name: self.name, entries: entries_view(self.entries@), pool: self.pool }
    }
}

impl Func {
    /// A copy of the function.
    pub fn duplicate(&self) -> (res: Func)
        ensures
            res@ == self@,
    {
        let kind = match &self.kind {
            FuncKind::Normal { id } => FuncKind::Normal { id: *id },
            FuncKind::Alias { target, target_args } => FuncKind::Alias {
                target: *target,
                target_args: duplicate_alias_params(target_args),
            },
            FuncKind::Macro { target, varargs } => FuncKind::Macro {
                target: *target,
                varargs: *varargs,
            },
        };
        Func { args: duplicate_params(&self.args), kind }
    }
}

impl Environment {
    /// No name and no opcode occurs twice, and no definition has more than
    /// one return parameter.
    pub open spec fn wf(self) -> bool {
        self@.wf()
    }

    /// An environment without definitions.
    pub fn new(name: Ident) -> (res: Environment)
        ensures
            res.wf(),
            res@ == (EnvView { name, entries: Seq::empty(), pool: 0 }),
    {
        let res = Environment { name, entries: Vec::new(), pool: 0 };
        proof {
            assert(res@.entries =~= Seq::empty());
        }
        res
    }

    /// The environment's name.
    pub fn name(&self) -> (res: Ident)
        ensures
            res == self@.name,
    {
        self.name
    }

    /// The size of the environment's variable pool.
    pub fn pool(&self) -> (res: u16)
        ensures
            res == self@.pool,
    {
        self.pool
    }

    /// The number of definitions.
    pub fn len(&self) -> (res: usize)
        ensures
            res == self@.entries.len(),
    {
        self.entries.len()
    }

    /// The name of the `i`-th definition.
    pub fn name_at(&self, i: usize) -> (res: Ident)
        requires
            i < self@.entries.len(),
        ensures
            res == self@.entries[i as int].name,
    {
        self.entries[i].name
    }

    /// The `i`-th definition.
    pub fn func_at(&self, i: usize) -> (res: &Func)
        requires
            i < self@.entries.len(),
        ensures
            res@ == self@.entries[i as int].func,
    {
        &self.entries[i].func
    }

    /// Where `name` is defined, if it is.
    pub fn position(&self, name: Ident) -> (res: Option<usize>)
        requires
            self.wf(),
        ensures
            match res {
                Some(i) => has_entry(self@.entries, name) && entry_pos(self@.entries, name) == i,
                None => !has_entry(self@.entries, name),
            },
    {
        let mut i: usize = 0;
        while i < self.entries.len()
            invariant
                self.wf(),
                i <= self.entries.len(),
                forall|k: int| 0 <= k < i ==> (#[trigger] self@.entries[k]).name != name,
            decreases self.entries.len() - i,
        {
            if self.entries[i].name == name {
                proof {
                    assert(self@.entries[i as int].name == name);
                }
                return Some(i);
            }
            i += 1;
        }
        None
    }

    /// The definition of `name`.
    pub fn lookup(&self, name: Ident) -> (res: Result<&Func, ErrorKind>)
        requires
            self.wf(),
        ensures
            match res {
                Ok(func) => spec_lookup(self@.entries, name) == Some(func@),
                Err(e) => e == ErrorKind::UnknownDefinition(name) && spec_lookup(
                    self@.entries,
                    name,
                ) is None,
            },
    {
        match self.position(name) {
            Some(i) => Ok(&self.entries[i].func),
            None => Err(ErrorKind::UnknownDefinition(name)),
        }
    }

    /// Follows aliases from `name` to the definition with an opcode that it
    /// stands for. Fails where the name is not defined, where the chain ends
    /// at a macro, and where it does not end.
    pub fn resolve(&self, name: Ident) -> (res: Result<Ident, ErrorKind>)
        requires
            self.wf(),
        ensures
            res == self@.resolve(name),
    {
        let mut current = name;
        let mut fuel: usize = self.entries.len();
        loop
            invariant
                self.wf(),
                fuel <= self@.entries.len(),
                spec_resolve(self@.entries, current, fuel as nat) == self@.resolve(name),
            decreases fuel,
        {
            match self.lookup(current) {
                Err(e) => {
                    return Err(e);
                },
                Ok(func) => match &func.kind {
                    FuncKind::Normal { .. } => {
                        return Ok(current);
                    },
                    FuncKind::Macro { .. } => {
                        return Err(ErrorKind::MacroTarget(current));
                    },
                    FuncKind::Alias { target, .. } => {
                        if fuel == 0 {
                            return Err(ErrorKind::AliasCycle(current));
                        }
                        current = *target;
                        fuel -= 1;
                    },
                },
            }
        }
    }

    /// The opcode that `name` stands for.
    pub fn opcode_id(&self, name: Ident) -> (res: Result<u8, ErrorKind>)
        requires
            self.wf(),
        ensures
            res == self@.opcode_id(name),
    {
        match self.resolve(name) {
            Err(e) => Err(e),
            Ok(target) => match self.lookup(target) {
                Ok(func) => match &func.kind {
                    FuncKind::Normal { id } => Ok(*id),
                    _ => Err(ErrorKind::UnknownDefinition(target)),
                },
                Err(e) => Err(e),
            },
        }
    }

    /// The name by which the assembler knows `func` in this environment.
    pub fn qualified(&self, func: Ident, idents: &Interner) -> (res: Result<String, ErrorKind>)
        ensures
            match spec_qualified(idents@, self@.name, func) {
                Ok(text) => res is Ok && res.unwrap()@ == text,
                Err(e) => res == Err::<String, ErrorKind>(e),
            },
    {
        let env_name = match idents.resolve(self.name) {
            Some(s) => s,
            None => {
                return Err(ErrorKind::UnknownIdent(self.name));
            },
        };
        let func_name = match idents.resolve(func) {
            Some(s) => s,
            None => {
                return Err(ErrorKind::UnknownIdent(func));
            },
        };
        proof {
            reveal_strlit("@");
            assert("@"@ =~= seq!['@']);
        }
        let mut text = String::from_str(env_name);
        text.append("@");
        text.append(func_name);
        Ok(text)
    }

    /// The assembler's name for the opcode that `name` stands for: aliases are
    /// followed to a definition with an opcode, whose name is qualified with
    /// this environment's.
    pub fn expand(&self, name: Ident, idents: &Interner) -> (res: Result<String, ErrorKind>)
        requires
            self.wf(),
        ensures
            match self@.expand(idents@, name) {
                Ok(text) => res is Ok && res.unwrap()@ == text,
                Err(e) => res == Err::<String, ErrorKind>(e),
            },
    {
        match self.resolve(name) {
            Err(e) => Err(e),
            Ok(target) => self.qualified(target, idents),
        }
    }
}

/// The largest pool size that an environment may ask for.
pub const MAX_POOL_SIZE: i64 = 65534;

/// The number of opcodes that an environment can hold.
pub const OPCODE_LIMIT: u16 = 256;

/// Whether a definition holds the opcode `id`.
pub open spec fn has_id(entries: Seq<EntryView>, id: u8) -> bool {
    exists|i: int|
        0 <= i < entries.len() && (#[trigger] entries[i]).func.kind == (FuncKindView::Normal { id })
}

/// Where the definition stands that holds the opcode `id`.
pub open spec fn id_pos(entries: Seq<EntryView>, id: u8) -> int {
    choose|i: int|
        0 <= i < entries.len() && (#[trigger] entries[i]).func.kind == (FuncKindView::Normal { id })
}

/// One more than the largest opcode among the entries; zero where none has
/// an opcode.
pub open spec fn ids_end(entries: Seq<EntryView>) -> nat
    decreases entries.len(),
{
    if entries.len() == 0 {
        0
    } else {
        let before = ids_end(entries.drop_last());
        match entries.last().func.kind {
            FuncKindView::Normal { id } => if id + 1 > before {
                (id + 1) as nat
            } else {
                before
            },
            _ => before,
        }
    }
}

/// The entries with one more definition. A definition is refused where it
/// has two return parameters, where its opcode is taken, and where its name
/// is taken.
pub open spec fn spec_define(entries: Seq<EntryView>, name: Ident, func: FuncView) -> Result<
    Seq<EntryView>,
    ErrorKind,
> {
    if returns_count(func.args) > 1 {
        Err(ErrorKind::MultipleReturns)
    } else if func.kind matches FuncKindView::Normal { id } && has_id(entries, id) {
        Err(
            ErrorKind::DuplicateOpcode {
                name,
                id: func.kind->Normal_id,
                other: entries[id_pos(entries, func.kind->Normal_id)].name,
            },
        )
    } else if has_entry(entries, name) {
        Err(ErrorKind::DuplicateFunction(name))
    } else {
        Ok(entries.push(EntryView { name, func }))
    }
}

/// A definition as it is copied into another environment whose next free
/// opcode is `base`: an opcode moves up by `base` and must stay below 256.
pub open spec fn spec_rebase(func: FuncView, base: nat, env: Ident) -> Result<FuncView, ErrorKind> {
    match func.kind {
        FuncKindView::Normal { id } => if base + id > 255 {
            Err(ErrorKind::BytecodeLimit(env))
        } else {
            Ok(FuncView { args: func.args, kind: FuncKindView::Normal { id: (base + id) as u8 } })
        },
        _ => Ok(func),
    }
}

/// The entries and warnings after the first `k` definitions of `src` have
/// been copied in, in their order. A definition whose name exists replaces
/// the earlier one, with a warning.
pub open spec fn spec_merge(
    entries: Seq<EntryView>,
    warnings: Seq<Warning>,
    base: nat,
    src: Seq<EntryView>,
    k: nat,
    env: Ident,
) -> Result<(Seq<EntryView>, Seq<Warning>), ErrorKind>
    decreases k,
{
    if k == 0 || k > src.len() {
        Ok((entries, warnings))
    } else {
        match spec_merge(entries, warnings, base, src, (k - 1) as nat, env) {
            Err(e) => Err(e),
            Ok((es, ws)) => {
                let name = src[k - 1].name;
                match spec_rebase(src[k - 1].func, base, env) {
                    Err(e) => Err(e),
                    Ok(func) => if has_entry(es, name) {
                        Ok(
                            (
                                es.update(entry_pos(es, name), EntryView { name, func }),
                                ws.push(Warning::DuplicateDefinition(name)),
                            ),
                        )
                    } else {
                        Ok((es.push(EntryView { name, func }), ws))
                    },
                }
            },
        }
    }
}

/// An environment while it is built.
pub struct BuildState {
    /// The definitions so far.
    pub entries: Seq<EntryView>,
    /// The pool size, once it has been set.
    pub pool: Option<u16>,
    /// The next free opcode.
    pub next_id: nat,
    /// The warnings so far.
    pub warnings: Seq<Warning>,
}

impl BuildState {
    /// The definitions are well formed, and every opcode in use lies below
    /// the next free one.
    pub open spec fn wf(self) -> bool {
        &&& entries_wf(self.entries)
        &&& self.next_id <= OPCODE_LIMIT
        &&& forall|i: int|
            0 <= i < self.entries.len() ==> ((#[trigger] self.entries[i]).func.kind matches FuncKindView::Normal {
                id,
            } ==> id < self.next_id)
    }
}

/// The function that a definition statement defines; `id` is the opcode for
/// one that gets an opcode of its own.
pub open spec fn def_func_view(args: Seq<DefParam>, kind: DefKind, id: u8) -> FuncView {
    FuncView {
        args,
        kind: match kind {
            DefKind::Simple => FuncKindView::Normal { id },
            DefKind::Alias { target, target_args } => FuncKindView::Alias {
                target,
                target_args: alias_params_view(target_args@),
            },
            DefKind::Macro { target, varargs } => FuncKindView::Macro { target, varargs },
        },
    }
}

/// Whether the table holds an environment called `name`.
pub open spec fn has_env(envs: Seq<EnvView>, name: Ident) -> bool {
    exists|i: int| 0 <= i < envs.len() && (#[trigger] envs[i]).name == name
}

/// Where the table holds the environment called `name`.
pub open spec fn env_pos(envs: Seq<EnvView>, name: Ident) -> int {
    choose|i: int| 0 <= i < envs.len() && (#[trigger] envs[i]).name == name
}

/// Every environment is well formed, and no two have the same name.
pub open spec fn envs_wf(envs: Seq<EnvView>) -> bool {
    &&& forall|i: int| 0 <= i < envs.len() ==> (#[trigger] envs[i]).wf()
    &&& forall|i: int, j: int|
        0 <= i < envs.len() && 0 <= j < envs.len() && i != j ==> (#[trigger] envs[i]).name != (
        #[trigger] envs[j]).name
}

/// What a statement of an environment block does to the environment that is
/// being built under the name `env`.
///
/// A definition with an opcode of its own gets the next free one. A `use`
/// copies the definitions of an environment that exists already; their
/// opcodes move up by the next free opcode, which then moves behind the
/// largest of them. A pool statement sets the pool size once, to a constant
/// between zero and the largest size allowed.
pub open spec fn spec_process_stmt(st: BuildState, env: Ident, kind: EnvStatementKind, envs: Seq<
    EnvView,
>) -> Result<BuildState, ErrorKind> {
    match kind {
        EnvStatementKind::Def { name, args, kind } => match kind {
            DefKind::Simple => if st.next_id > 255 {
                Err(ErrorKind::BytecodeLimit(env))
            } else {
                match spec_define(st.entries, name, def_func_view(args@, kind, st.next_id as u8)) {
                    Err(e) => Err(e),
                    Ok(entries) => Ok(BuildState { entries, next_id: st.next_id + 1, ..st }),
                }
            },
            _ => match spec_define(st.entries, name, def_func_view(args@, kind, 0)) {
                Err(e) => Err(e),
                Ok(entries) => Ok(BuildState { entries, ..st }),
            },
        },
        EnvStatementKind::Use { target } => if !has_env(envs, target) {
            Err(ErrorKind::UnknownEnvironment(target))
        } else {
            let src = envs[env_pos(envs, target)].entries;
            match spec_merge(st.entries, st.warnings, st.next_id, src, src.len(), env) {
                Err(e) => Err(e),
                Ok((entries, warnings)) => Ok(
                    BuildState { entries, warnings, next_id: st.next_id + ids_end(src), ..st },
                ),
            }
        },
        EnvStatementKind::Pool { size } => match spec_const_eval(size@) {
            None => Err(ErrorKind::PoolNotConstant),
            Some(n) => if n > MAX_POOL_SIZE {
                Err(ErrorKind::PoolTooLarge(n))
            } else if n < 0 {
                Err(ErrorKind::NegativePool)
            } else if st.pool is Some {
                Err(ErrorKind::DuplicatePool)
            } else {
                Ok(BuildState { pool: Some(n as u16), ..st })
            },
        },
    }
}

/// The environment after the first `k` statements of a block, or the
/// diagnostic of the first statement that fails, with that statement's span.
pub open spec fn spec_build(env: Ident, body: Seq<EnvStatement>, k: nat, envs: Seq<EnvView>) -> Result<
    BuildState,
    Diagnostic,
>
    decreases k,
{
    if k == 0 || k > body.len() {
        Ok(BuildState { entries: Seq::empty(), pool: None, next_id: 0, warnings: Seq::empty() })
    } else {
        match spec_build(env, body, (k - 1) as nat, envs) {
            Err(d) => Err(d),
            Ok(st) => match spec_process_stmt(st, env, body[k - 1].kind, envs) {
                Err(kind) => Err(Diagnostic { kind, span: Some(body[k - 1].span) }),
                Ok(st1) => Ok(st1),
            },
        }
    }
}

/// The environment that a block declares, with the warnings of its `use`
/// statements. An environment without a pool statement has a pool of size
/// zero.
pub open spec fn spec_compile_environment(decl: Env, envs: Seq<EnvView>) -> Result<
    (EnvView, Seq<Warning>),
    Diagnostic,
> {
    match spec_build(decl.name, decl.body@, decl.body@.len(), envs) {
        Err(d) => Err(d),
        Ok(st) => Ok(
            (
                EnvView {
                    name: decl.name,
                    entries: st.entries,
                    pool: match st.pool {
                        Some(size) => size,
                        None => 0,
                    },
                },
                st.warnings,
            ),
        ),
    }
}

/// A definition with an opcode has an opcode below the end of the opcodes.
pub proof fn lemma_ids_end(entries: Seq<EntryView>, i: int)
    requires
        0 <= i < entries.len(),
        entries[i].func.kind is Normal,
    ensures
        entries[i].func.kind->Normal_id < ids_end(entries),
    decreases entries.len(),
{
    if i < entries.len() - 1 {
        lemma_ids_end(entries.drop_last(), i);
    }
}

/// The opcodes end at or below 256.
pub proof fn lemma_ids_end_bound(entries: Seq<EntryView>)
    ensures
        ids_end(entries) <= 256,
    decreases entries.len(),
{
    if entries.len() > 0 {
        lemma_ids_end_bound(entries.drop_last());
    }
}

/// Where no opcode is in use, the opcodes end at zero; else some definition
/// holds the opcode before the end.
pub proof fn lemma_ids_end_witness(entries: Seq<EntryView>)
    ensures
        ids_end(entries) > 0 ==> exists|i: int|
            0 <= i < entries.len() && (#[trigger] entries[i]).func.kind == (FuncKindView::Normal {
                id: (ids_end(entries) - 1) as u8,
            }),
    decreases entries.len(),
{
    if entries.len() > 0 {
        let front = entries.drop_last();
        lemma_ids_end_witness(front);
        lemma_ids_end_bound(front);
        if ids_end(entries) > 0 {
            if ids_end(entries) == ids_end(front) {
                let i = choose|i: int|
                    0 <= i < front.len() && (#[trigger] front[i]).func.kind == (FuncKindView::Normal {
                        id: (ids_end(front) - 1) as u8,
                    });
                assert(entries[i] == front[i]);
            } else {
                assert(entries[entries.len() - 1].func.kind == (FuncKindView::Normal {
                    id: (ids_end(entries) - 1) as u8,
                }));
            }
        }
    }
}

/// Once a definition could not be copied, those behind it are not looked at.
pub proof fn lemma_merge_fails(
    entries: Seq<EntryView>,
    warnings: Seq<Warning>,
    base: nat,
    src: Seq<EntryView>,
    k: nat,
    n: nat,
    env: Ident,
)
    requires
        k <= n <= src.len(),
        spec_merge(entries, warnings, base, src, k, env) is Err,
    ensures
        spec_merge(entries, warnings, base, src, n, env) == spec_merge(
            entries,
            warnings,
            base,
            src,
            k,
            env,
        ),
    decreases n,
{
    if k < n {
        lemma_merge_fails(entries, warnings, base, src, k, (n - 1) as nat, env);
    }
}

/// Once a statement has failed, those behind it are not looked at.
pub proof fn lemma_build_fails(env: Ident, body: Seq<EnvStatement>, k: nat, n: nat, envs: Seq<EnvView>)
    requires
        k <= n <= body.len(),
        spec_build(env, body, k, envs) is Err,
    ensures
        spec_build(env, body, n, envs) == spec_build(env, body, k, envs),
    decreases n,
{
    if k < n {
        lemma_build_fails(env, body, k, (n - 1) as nat, envs);
    }
}

/// What holds of the entries while the definitions of `src` are copied in,
/// after the first `k` of them: the entries are well formed, and every opcode
/// lies below `base` or is the moved opcode of one of those `k`.
pub open spec fn merging(entries: Seq<EntryView>, base: nat, src: Seq<EntryView>, k: nat) -> bool {
    &&& entries_wf(entries)
    &&& forall|i: int|
        0 <= i < entries.len() ==> ((#[trigger] entries[i]).func.kind matches FuncKindView::Normal {
            id,
        } ==> id < base || exists|j: int|
            0 <= j < k && (#[trigger] src[j]).func.kind == (FuncKindView::Normal {
                id: (id - base) as u8,
            }))
}

/// Copying one more definition keeps the entries well formed.
#[verifier::rlimit(50)]
pub proof fn lemma_merge_step(
    entries: Seq<EntryView>,
    base: nat,
    src: Seq<EntryView>,
    k: nat,
    env: Ident,
)
    requires
        merging(entries, base, src, k),
        entries_wf(src),
        k < src.len(),
        spec_rebase(src[k as int].func, base, env) is Ok,
    ensures
        ({
            let name = src[k as int].name;
            let func = spec_rebase(src[k as int].func, base, env).unwrap();
            let after = if has_entry(entries, name) {
                entries.update(entry_pos(entries, name), EntryView { name, func })
            } else {
                entries.push(EntryView { name, func })
            };
            merging(after, base, src, k + 1)
        }),
{
    let name = src[k as int].name;
    let func = spec_rebase(src[k as int].func, base, env).unwrap();
    let added = EntryView { name, func };
    let p = if has_entry(entries, name) {
        entry_pos(entries, name)
    } else {
        entries.len() as int
    };
    let after = if has_entry(entries, name) {
        entries.update(p, added)
    } else {
        entries.push(added)
    };
    assert(after[p] == added);
    assert forall|i: int| 0 <= i < after.len() && i != p implies #[trigger] after[i] == entries[i] by {}
    assert forall|i: int, j: int|
        0 <= i < after.len() && 0 <= j < after.len() && i != j implies (#[trigger] after[i]).name
        != (#[trigger] after[j]).name by {
        if i != p {
            assert(after[i] == entries[i]);
        }
        if j != p {
            assert(after[j] == entries[j]);
        }
    }
    assert forall|i: int| 0 <= i < after.len() implies returns_count(
        (#[trigger] after[i]).func.args,
    ) <= 1 by {
        if i != p {
            assert(after[i] == entries[i]);
        } else {
            assert(returns_count(src[k as int].func.args) <= 1);
        }
    }
    assert forall|i: int| 0 <= i < after.len() implies ((#[trigger] after[i]).func.kind matches FuncKindView::Normal {
        id,
    } ==> id < base || exists|j: int|
        0 <= j < k + 1 && (#[trigger] src[j]).func.kind == (FuncKindView::Normal {
            id: (id - base) as u8,
        })) by {
        if after[i].func.kind is Normal {
            let id = after[i].func.kind->Normal_id;
            if i != p {
                assert(after[i] == entries[i]);
                if id >= base {
                    let j = choose|j: int|
                        0 <= j < k && (#[trigger] src[j]).func.kind == (FuncKindView::Normal {
                            id: (id - base) as u8,
                        });
                    assert(0 <= j < k + 1 && src[j].func.kind == (FuncKindView::Normal {
                        id: (id - base) as u8,
                    }));
                }
            } else {
                assert(src[k as int].func.kind == (FuncKindView::Normal { id: (id - base) as u8 }));
            }
        }
    }
    assert forall|i: int, j: int| 0 <= i < after.len() && 0 <= j < after.len() && i != j implies !({
        &&& (#[trigger] after[i]).func.kind matches FuncKindView::Normal { id: a }
        &&& (#[trigger] after[j]).func.kind matches FuncKindView::Normal { id: b }
        &&& a == b
    }) by {
        if after[i].func.kind is Normal && after[j].func.kind is Normal {
            let a = after[i].func.kind->Normal_id;
            let b = after[j].func.kind->Normal_id;
            if i != p && j != p {
                assert(after[i] == entries[i]);
                assert(after[j] == entries[j]);
            } else {
                let x = if i == p {
                    j
                } else {
                    i
                };
                let c = after[x].func.kind->Normal_id;
                let d = after[p].func.kind->Normal_id;
                assert(after[x] == entries[x]);
                assert(src[k as int].func.kind == (FuncKindView::Normal { id: (d - base) as u8 }));
                if c >= base {
                    let w = choose|w: int|
                        0 <= w < k && (#[trigger] src[w]).func.kind == (FuncKindView::Normal {
                            id: (c - base) as u8,
                        });
                    assert(src[w].func.kind is Normal && src[k as int].func.kind is Normal);
                    assert(w != k);
                }
            }
        }
    }
}

impl Environment {
    /// Adds a definition. It is refused where it has two return parameters,
    /// where its opcode is taken, and where its name is taken.
    #[verifier::loop_isolation(false)]
    pub fn define(&mut self, name: Ident, func: Func) -> (res: Result<(), ErrorKind>)
        requires
            old(self).wf(),
        ensures
            final(self).wf(),
            final(self)@.name == old(self)@.name,
            final(self)@.pool == old(self)@.pool,
            match spec_define(old(self)@.entries, name, func@) {
                Ok(entries) => res is Ok && final(self)@.entries == entries,
                Err(e) => res == Err::<(), ErrorKind>(e) && final(self)@.entries == old(
                    self,
                )@.entries,
            },
    {
        let ghost before = self@.entries;
        let mut found: usize = 0;
        let mut i: usize = 0;
        while i < func.args.len()
            invariant
                i <= func.args.len(),
                found <= i,
                found == returns_count(func.args@.take(i as int)),
            decreases func.args.len() - i,
        {
            proof {
                assert(func.args@.take(i + 1).drop_last() =~= func.args@.take(i as int));
                assert(func.args@.take(i + 1).last() == func.args@[i as int]);
            }
            match func.args[i].kind {
                DefParamKind::Return => {
                    found += 1;
                },
                _ => {},
            }
            i += 1;
        }
        proof {
            assert(func.args@.take(func.args.len() as int) =~= func.args@);
        }
        if found > 1 {
            return Err(ErrorKind::MultipleReturns);
        }
        match &func.kind {
            FuncKind::Normal { id } => {
                let mut j: usize = 0;
                while j < self.entries.len()
                    invariant
                        j <= self.entries.len(),
                        forall|x: int|
                            0 <= x < j ==> (#[trigger] before[x]).func.kind != (FuncKindView::Normal {
                                id: *id,
                            }),
                    decreases self.entries.len() - j,
                {
                    match &self.entries[j].func.kind {
                        FuncKind::Normal { id: other } => {
                            if *other == *id {
                                proof {
                                    assert(before[j as int].func.kind == (FuncKindView::Normal {
                                        id: *id,
                                    }));
                                    assert(has_id(before, *id));
                                    let c = id_pos(before, *id);
                                    if c != j {
                                        assert(before[c].func.kind is Normal);
                                        assert(before[j as int].func.kind is Normal);
                                    }
                                }
                                return Err(
                                    ErrorKind::DuplicateOpcode {
                                        name,
                                        id: *id,
                                        other: self.entries[j].name,
                                    },
                                );
                            }
                        },
                        _ => {},
                    }
                    j += 1;
                }
            },
            _ => {},
        }
        if self.position(name).is_some() {
            return Err(ErrorKind::DuplicateFunction(name));
        }
        let ghost added = EntryView { name, func: func@ };
        self.entries.push(Entry { name, func });
        proof {
            let after = self@.entries;
            assert(after =~= before.push(added));
            assert forall|x: int| 0 <= x < before.len() implies #[trigger] after[x] == before[x] by {}
            assert forall|x: int, y: int|
                0 <= x < after.len() && 0 <= y < after.len() && x != y implies (#[trigger] after[x]).name
                != (#[trigger] after[y]).name by {
                if x < before.len() {
                    assert(after[x] == before[x]);
                }
                if y < before.len() {
                    assert(after[y] == before[y]);
                }
            }
            assert forall|x: int, y: int|
                0 <= x < after.len() && 0 <= y < after.len() && x != y implies !({
                &&& (#[trigger] after[x]).func.kind matches FuncKindView::Normal { id: a }
                &&& (#[trigger] after[y]).func.kind matches FuncKindView::Normal { id: b }
                &&& a == b
            }) by {
                if x < before.len() {
                    assert(after[x] == before[x]);
                }
                if y < before.len() {
                    assert(after[y] == before[y]);
                }
            }
            assert forall|x: int| 0 <= x < after.len() implies returns_count(
                (#[trigger] after[x]).func.args,
            ) <= 1 by {
                if x < before.len() {
                    assert(after[x] == before[x]);
                }
            }
        }
        Ok(())
    }

    /// Sets the size of the pool.
    pub fn set_pool(&mut self, size: u16)
        ensures
            final(self)@ == (EnvView { pool: size, ..old(self)@ }),
    {
        self.pool = size;
    }

    /// Copies the definitions of `src` into this environment, whose next
    /// free opcode is `base`. A definition whose name exists replaces the
    /// earlier one, with a warning. Where an opcode would move above 255,
    /// nothing is copied.
    #[verifier::loop_isolation(false)]
    #[verifier::rlimit(50)]
    pub fn merge(&mut self, src: &Environment, base: u16, warnings: &mut Vec<Warning>) -> (res:
        Result<(), ErrorKind>)
        requires
            old(self).wf(),
            src.wf(),
            base <= OPCODE_LIMIT,
            forall|i: int|
                0 <= i < old(self)@.entries.len() ==> ((#[trigger] old(
                    self,
                )@.entries[i]).func.kind matches FuncKindView::Normal { id } ==> id < base),
        ensures
            final(self).wf(),
            final(self)@.name == old(self)@.name,
            final(self)@.pool == old(self)@.pool,
            match spec_merge(
                old(self)@.entries,
                old(warnings)@,
                base as nat,
                src@.entries,
                src@.entries.len(),
                old(self)@.name,
            ) {
                Ok((entries, ws)) => {
                    &&& res is Ok
                    &&& final(self)@.entries == entries
                    &&& final(warnings)@ == ws
                    &&& base + ids_end(src@.entries) <= OPCODE_LIMIT
                    &&& forall|i: int|
                        0 <= i < entries.len() ==> ((#[trigger] entries[i]).func.kind matches FuncKindView::Normal {
                            id,
                        } ==> id < base + ids_end(src@.entries))
                },
                Err(e) => {
                    &&& res == Err::<(), ErrorKind>(e)
                    &&& final(self)@.entries == old(self)@.entries
                    &&& final(warnings)@ == old(warnings)@
                },
            },
    {
        let ghost entries0 = self@.entries;
        let ghost warnings0 = warnings@;
        let ghost source = src@.entries;
        let ghost env = self@.name;
        let end = src.opcodes_end();
        proof {
            lemma_ids_end_bound(source);
        }
        if base + end > OPCODE_LIMIT {
            proof {
                lemma_ids_end_witness(source);
                let w = choose|w: int|
                    0 <= w < source.len() && (#[trigger] source[w]).func.kind == (FuncKindView::Normal {
                        id: (ids_end(source) - 1) as u8,
                    });
                lemma_use_past_limit(entries0, warnings0, base as nat, source, env, w);
            }
            return Err(ErrorKind::BytecodeLimit(self.name));
        }
        let mut k: usize = 0;
        while k < src.entries.len()
            invariant
                k <= src.entries.len(),
                self@.name == env,
                self@.pool == old(self)@.pool,
                merging(self@.entries, base as nat, source, k as nat),
                spec_merge(entries0, warnings0, base as nat, source, k as nat, env) == Ok::<
                    (Seq<EntryView>, Seq<Warning>),
                    ErrorKind,
                >((self@.entries, warnings@)),
                forall|j: int|
                    0 <= j < k ==> ((#[trigger] source[j]).func.kind matches FuncKindView::Normal {
                        id,
                    } ==> base + id <= 255),
            decreases src.entries.len() - k,
        {
            let name = src.entries[k].name;
            let copied = src.entries[k].func.duplicate();
            let ghost current = self@.entries;
            proof {
                assert(source[k as int] == src.entries@[k as int]@);
                assert(copied@ == source[k as int].func);
            }
            let func = match copied.kind {
                FuncKind::Normal { id } => {
                    proof {
                        lemma_ids_end(source, k as int);
                    }
                    Func { args: copied.args, kind: FuncKind::Normal { id: (base + id as u16) as u8 } }
                },
                FuncKind::Alias { target, target_args } => Func {
                    args: copied.args,
                    kind: FuncKind::Alias { target, target_args },
                },
                FuncKind::Macro { target, varargs } => Func {
                    args: copied.args,
                    kind: FuncKind::Macro { target, varargs },
                },
            };
            proof {
                assert(func@ == spec_rebase(source[k as int].func, base as nat, env).unwrap());
                lemma_merge_step(current, base as nat, source, k as nat, env);
            }
            match self.position(name) {
                Some(p) => {
                    self.entries.set(p, Entry { name, func });
                    warnings.push(Warning::DuplicateDefinition(name));
                    proof {
                        assert(self@.entries =~= current.update(
                            p as int,
                            EntryView { name, func: func@ },
                        ));
                    }
                },
                None => {
                    self.entries.push(Entry { name, func });
                    proof {
                        assert(self@.entries =~= current.push(EntryView { name, func: func@ }));
                    }
                },
            }
            k += 1;
        }
        proof {
            let entries = self@.entries;
            lemma_ids_end_bound(source);
            lemma_ids_end_witness(source);
            if ids_end(source) > 0 {
                let w = choose|w: int|
                    0 <= w < source.len() && (#[trigger] source[w]).func.kind == (FuncKindView::Normal {
                        id: (ids_end(source) - 1) as u8,
                    });
                assert(base + (ids_end(source) - 1) <= 255);
            }
            assert forall|i: int| 0 <= i < entries.len() implies ((#[trigger] entries[i]).func.kind matches FuncKindView::Normal {
                id,
            } ==> id < base + ids_end(source)) by {
                if entries[i].func.kind is Normal {
                    let id = entries[i].func.kind->Normal_id;
                    if id >= base {
                        let j = choose|j: int|
                            0 <= j < k && (#[trigger] source[j]).func.kind == (FuncKindView::Normal {
                                id: (id - base) as u8,
                            });
                        lemma_ids_end(source, j);
                    }
                }
            }
        }
        Ok(())
    }
}

/// The environments that have been declared, in the order of their
/// declaration.
#[derive(Debug)]
pub struct EnvironmentTable {
    envs: Vec<Environment>,
}

impl View for EnvironmentTable {
    type V = Seq<EnvView>;

    closed spec fn view(&self) -> Seq<EnvView> {
        self.envs@.map_values(|e: Environment| e@)
    }
}

impl EnvironmentTable {
    /// Every environment is well formed, and no two have the same name.
    pub open spec fn wf(self) -> bool {
        envs_wf(self@)
    }

    /// A table without environments.
    pub fn new() -> (res: EnvironmentTable)
        ensures
            res.wf(),
            res@ == Seq::<EnvView>::empty(),
    {
        let res = EnvironmentTable { envs: Vec::new() };
        proof {
            assert(res@ =~= Seq::empty());
        }
        res
    }

    /// The number of environments.
    pub fn len(&self) -> (res: usize)
        ensures
            res == self@.len(),
    {
        self.envs.len()
    }

    /// The `i`-th environment.
    pub fn get(&self, i: usize) -> (res: &Environment)
        requires
            self.wf(),
            i < self@.len(),
        ensures
            res@ == self@[i as int],
            res.wf(),
    {
        proof {
            assert(self@[i as int].wf());
        }
        &self.envs[i]
    }

    /// The environment called `name`, if it has been declared.
    pub fn lookup(&self, name: Ident) -> (res: Option<&Environment>)
        requires
            self.wf(),
        ensures
            match res {
                Some(env) => has_env(self@, name) && env@ == self@[env_pos(self@, name)]
                    && env.wf(),
                None => !has_env(self@, name),
            },
    {
        let mut i: usize = 0;
        while i < self.envs.len()
            invariant
                self.wf(),
                i <= self.envs.len(),
                forall|k: int| 0 <= k < i ==> (#[trigger] self@[k]).name != name,
            decreases self.envs.len() - i,
        {
            if self.envs[i].name == name {
                proof {
                    assert(self@[i as int].name == name);
                    assert(self@[i as int].wf());
                }
                return Some(&self.envs[i]);
            }
            i += 1;
        }
        None
    }

    /// Adds an environment whose name is not taken.
    pub fn insert(&mut self, env: Environment) -> (res: Result<(), ErrorKind>)
        requires
            old(self).wf(),
            env.wf(),
        ensures
            final(self).wf(),
            if has_env(old(self)@, env@.name) {
                &&& res == Err::<(), ErrorKind>(ErrorKind::DuplicateEnvironment(env@.name))
                &&& final(self)@ == old(self)@
            } else {
                res is Ok && final(self)@ == old(self)@.push(env@)
            },
    {
        if self.lookup(env.name).is_some() {
            return Err(ErrorKind::DuplicateEnvironment(env.name));
        }
        let ghost before = self@;
        let ghost added = env@;
        self.envs.push(env);
        proof {
            assert(self@ =~= before.push(added));
            assert forall|i: int| 0 <= i < self@.len() implies (#[trigger] self@[i]).wf() by {
                if i < before.len() {
                    assert(self@[i] == before[i]);
                }
            }
            assert forall|i: int, j: int|
                0 <= i < self@.len() && 0 <= j < self@.len() && i != j implies (#[trigger] self@[i]).name
                != (#[trigger] self@[j]).name by {
                if i < before.len() {
                    assert(self@[i] == before[i]);
                }
                if j < before.len() {
                    assert(self@[j] == before[j]);
                }
            }
        }
        Ok(())
    }
}

/// The state of a build as the builder holds it.
pub open spec fn build_state(env: Environment, pool: Option<u16>, id: u16, warnings: Vec<Warning>) -> BuildState {
    BuildState { entries: env@.entries, pool, next_id: id as nat, warnings: warnings@ }
}

/// The outcome of a step of the builder is the one that the statement's
/// meaning gives. A statement that fails changes nothing: the definitions,
/// the pool, the next free opcode and the warnings are as before.
pub open spec fn built_as(
    before: BuildState,
    after: BuildState,
    res: Result<(), ErrorKind>,
    spec: Result<BuildState, ErrorKind>,
) -> bool {
    match spec {
        Ok(st) => {
            &&& res is Ok
            &&& after.entries == st.entries
            &&& after.pool == st.pool
            &&& after.next_id == st.next_id
            &&& after.warnings == st.warnings
            &&& after.wf()
        },
        Err(e) => {
            &&& res == Err::<(), ErrorKind>(e)
            &&& after.entries == before.entries
            &&& after.pool == before.pool
            &&& after.next_id == before.next_id
            &&& after.warnings == before.warnings
        },
    }
}

/// Defines `name` in the environment as a function with the parameters
/// `args` that is carried out as `kind` says.
pub fn define_func(env: &mut Environment, name: Ident, args: Vec<DefParam>, kind: FuncKind) -> (res:
    Result<(), ErrorKind>)
    requires
        old(env).wf(),
    ensures
        final(env).wf(),
        final(env)@.name == old(env)@.name,
        final(env)@.pool == old(env)@.pool,
        match spec_define(old(env)@.entries, name, FuncView { args: args@, kind: kind@ }) {
            Ok(entries) => res is Ok && final(env)@.entries == entries,
            Err(e) => res == Err::<(), ErrorKind>(e) && final(env)@.entries == old(env)@.entries,
        },
{
    env.define(name, Func { args, kind })
}

/// Carries out one statement of an environment block on the environment that
/// is being built: `pool_size` holds the pool size once it is set, and `id`
/// the next free opcode.
#[verifier::rlimit(50)]
pub fn process_stmt(
    stmt: &EnvStatement,
    envs: &EnvironmentTable,
    env: &mut Environment,
    pool_size: &mut Option<u16>,
    id: &mut u16,
    warnings: &mut Vec<Warning>,
) -> (res: Result<(), ErrorKind>)
    requires
        envs.wf(),
        old(env).wf(),
        build_state(*old(env), *old(pool_size), *old(id), *old(warnings)).wf(),
    ensures
        final(env).wf(),
        final(env)@.name == old(env)@.name,
        final(env)@.pool == old(env)@.pool,
        built_as(
            build_state(*old(env), *old(pool_size), *old(id), *old(warnings)),
            build_state(*final(env), *final(pool_size), *final(id), *final(warnings)),
            res,
            spec_process_stmt(
                build_state(*old(env), *old(pool_size), *old(id), *old(warnings)),
                old(env)@.name,
                stmt.kind,
                envs@,
            ),
        ),
{
    let ghost before = env@.entries;
    match &stmt.kind {
        EnvStatementKind::Def { name, args, kind } => {
            match kind {
                DefKind::Simple => {
                    if *id > 255 {
                        return Err(ErrorKind::BytecodeLimit(env.name));
                    }
                    let func_kind = FuncKind::Normal { id: *id as u8 };
                    match define_func(env, *name, duplicate_params(args), func_kind) {
                        Ok(()) => {},
                        Err(e) => {
                            return Err(e);
                        },
                    }
                    proof {
                        let after = env@.entries;
                        assert forall|i: int| 0 <= i < after.len() implies ((#[trigger] after[i]).func.kind matches FuncKindView::Normal {
                            id: x,
                        } ==> x < *id + 1) by {
                            if i < before.len() {
                                assert(after[i] == before[i]);
                            }
                        }
                    }
                    *id = *id + 1;
                    Ok(())
                },
                DefKind::Alias { target, target_args } => {
                    let func_kind = FuncKind::Alias {
                        target: *target,
                        target_args: duplicate_alias_params(target_args),
                    };
                    match define_func(env, *name, duplicate_params(args), func_kind) {
                        Ok(()) => {},
                        Err(e) => {
                            return Err(e);
                        },
                    }
                    proof {
                        let after = env@.entries;
                        assert forall|i: int| 0 <= i < after.len() implies ((#[trigger] after[i]).func.kind matches FuncKindView::Normal {
                            id: x,
                        } ==> x < *id) by {
                            if i < before.len() {
                                assert(after[i] == before[i]);
                            }
                        }
                    }
                    Ok(())
                },
                DefKind::Macro { target, varargs } => {
                    let func_kind = FuncKind::Macro { target: *target, varargs: *varargs };
                    match define_func(env, *name, duplicate_params(args), func_kind) {
                        Ok(()) => {},
                        Err(e) => {
                            return Err(e);
                        },
                    }
                    proof {
                        let after = env@.entries;
                        assert forall|i: int| 0 <= i < after.len() implies ((#[trigger] after[i]).func.kind matches FuncKindView::Normal {
                            id: x,
                        } ==> x < *id) by {
                            if i < before.len() {
                                assert(after[i] == before[i]);
                            }
                        }
                    }
                    Ok(())
                },
            }
        },
        EnvStatementKind::Use { target } => {
            let src = match envs.lookup(*target) {
                Some(src) => src,
                None => {
                    return Err(ErrorKind::UnknownEnvironment(*target));
                },
            };
            match env.merge(src, *id, warnings) {
                Ok(()) => {},
                Err(e) => {
                    return Err(e);
                },
            }
            let end = src.opcodes_end();
            *id = *id + end;
            Ok(())
        },
        EnvStatementKind::Pool { size } => {
            let n = match size.const_eval() {
                Some(n) => n,
                None => {
                    return Err(ErrorKind::PoolNotConstant);
                },
            };
            if n > MAX_POOL_SIZE {
                return Err(ErrorKind::PoolTooLarge(n));
            }
            if n < 0 {
                return Err(ErrorKind::NegativePool);
            }
            if pool_size.is_some() {
                return Err(ErrorKind::DuplicatePool);
            }
            *pool_size = Some(n as u16);
            Ok(())
        },
    }
}

impl Environment {
    /// One more than the largest opcode in use; zero where none is.
    pub fn opcodes_end(&self) -> (res: u16)
        ensures
            res == ids_end(self@.entries),
    {
        let mut end: u16 = 0;
        let mut i: usize = 0;
        while i < self.entries.len()
            invariant
                i <= self.entries.len(),
                end <= 256,
                end == ids_end(self@.entries.take(i as int)),
            decreases self.entries.len() - i,
        {
            proof {
                let all = self@.entries;
                assert(all.take(i + 1).drop_last() =~= all.take(i as int));
                assert(all.take(i + 1).last() == all[i as int]);
            }
            match &self.entries[i].func.kind {
                FuncKind::Normal { id } => {
                    if *id as u16 + 1 > end {
                        end = *id as u16 + 1;
                    }
                },
                _ => {},
            }
            i += 1;
        }
        proof {
            assert(self@.entries.take(self.entries.len() as int) =~= self@.entries);
        }
        end
    }
}

/// Builds the environment that a block declares against the environments
/// that exist already. The warnings of its statements are added to
/// `warnings`.
#[verifier::loop_isolation(false)]
#[verifier::rlimit(50)]
pub fn compile_environment(decl: &Env, envs: &EnvironmentTable, warnings: &mut Vec<Warning>) -> (res:
    Result<Environment, Diagnostic>)
    requires
        envs.wf(),
    ensures
        match spec_compile_environment(*decl, envs@) {
            Ok((view, ws)) => {
                &&& res is Ok
                &&& res.unwrap()@ == view
                &&& res.unwrap().wf()
                &&& final(warnings)@ == old(warnings)@ + ws
            },
            Err(d) => res is Err && res->Err_0 == d && final(warnings)@ == old(warnings)@,
        },
{
    let mut env = Environment::new(decl.name);
    let mut pool_size: Option<u16> = None;
    let mut id: u16 = 0;
    let mut found: Vec<Warning> = Vec::new();
    let mut k: usize = 0;
    while k < decl.body.len()
        invariant
            k <= decl.body.len(),
            env.wf(),
            env@.name == decl.name,
            env@.pool == 0,
            build_state(env, pool_size, id, found).wf(),
            spec_build(decl.name, decl.body@, k as nat, envs@) matches Ok(st) && st.entries
                == env@.entries && st.pool == pool_size && st.next_id == id && st.warnings == found@,
        decreases decl.body.len() - k,
    {
        match process_stmt(&decl.body[k], envs, &mut env, &mut pool_size, &mut id, &mut found) {
            Ok(()) => {},
            Err(kind) => {
                proof {
                    lemma_build_fails(
                        decl.name,
                        decl.body@,
                        (k + 1) as nat,
                        decl.body@.len(),
                        envs@,
                    );
                }
                return Err(Diagnostic { kind, span: Some(decl.body[k].span) });
            },
        }
        k += 1;
    }
    match pool_size {
        Some(size) => {
            env.set_pool(size);
        },
        None => {},
    }
    warnings.append(&mut found);
    Ok(env)
}

/// The table and the warnings after a block has been declared: its
/// environment is built and added, unless its name is taken.
pub open spec fn spec_declare_env(envs: Seq<EnvView>, warnings: Seq<Warning>, decl: Env) -> Result<
    (Seq<EnvView>, Seq<Warning>),
    Diagnostic,
> {
    match spec_compile_environment(decl, envs) {
        Err(d) => Err(d),
        Ok((env, ws)) => if has_env(envs, decl.name) {
            Err(
                Diagnostic {
                    kind: ErrorKind::DuplicateEnvironment(decl.name),
                    span: Some(decl.span),
                },
            )
        } else {
            Ok((envs.push(env), warnings + ws))
        },
    }
}

/// The table and the warnings after the environment blocks among the first
/// `k` declarations have been declared, in their order.
pub open spec fn spec_collect_envs(roots: Seq<Root>, k: nat) -> Result<
    (Seq<EnvView>, Seq<Warning>),
    Diagnostic,
>
    decreases k,
{
    if k == 0 || k > roots.len() {
        Ok((Seq::empty(), Seq::empty()))
    } else {
        match spec_collect_envs(roots, (k - 1) as nat) {
            Err(d) => Err(d),
            Ok((envs, warnings)) => match roots[k - 1] {
                Root::Env(decl) => spec_declare_env(envs, warnings, decl),
                _ => Ok((envs, warnings)),
            },
        }
    }
}

/// Once a block has been refused, the declarations behind it are not looked
/// at.
pub proof fn lemma_collect_envs_fails(roots: Seq<Root>, k: nat, n: nat)
    requires
        k <= n <= roots.len(),
        spec_collect_envs(roots, k) is Err,
    ensures
        spec_collect_envs(roots, n) == spec_collect_envs(roots, k),
    decreases n,
{
    if k < n {
        lemma_collect_envs_fails(roots, k, (n - 1) as nat);
    }
}

/// Declares an environment: builds it against the table and adds it.
pub fn declare_env(decl: &Env, envs: &mut EnvironmentTable, warnings: &mut Vec<Warning>) -> (res:
    Result<(), Diagnostic>)
    requires
        old(envs).wf(),
    ensures
        final(envs).wf(),
        match spec_declare_env(old(envs)@, old(warnings)@, *decl) {
            Ok((table, ws)) => res is Ok && final(envs)@ == table && final(warnings)@ == ws,
            Err(d) => res == Err::<(), Diagnostic>(d) && final(envs)@ == old(envs)@,
        },
{
    let env = match compile_environment(decl, envs, warnings) {
        Ok(env) => env,
        Err(d) => {
            return Err(d);
        },
    };
    match envs.insert(env) {
        Ok(()) => Ok(()),
        Err(kind) => Err(Diagnostic { kind, span: Some(decl.span) }),
    }
}

/// Collects the environments that a program declares, in the order of their
/// declaration, and the warnings of their `use` statements.
#[verifier::loop_isolation(false)]
pub fn collect_envs(roots: &Vec<Root>) -> (res: Result<(EnvironmentTable, Vec<Warning>), Diagnostic>)
    ensures
        match spec_collect_envs(roots@, roots@.len()) {
            Ok((envs, warnings)) => {
                &&& res is Ok
                &&& res.unwrap().0@ == envs
                &&& res.unwrap().0.wf()
                &&& res.unwrap().1@ == warnings
            },
            Err(d) => res == Err::<(EnvironmentTable, Vec<Warning>), Diagnostic>(d),
        },
{
    let mut envs = EnvironmentTable::new();
    let mut warnings: Vec<Warning> = Vec::new();
    let mut k: usize = 0;
    while k < roots.len()
        invariant
            k <= roots.len(),
            envs.wf(),
            spec_collect_envs(roots@, k as nat) == Ok::<(Seq<EnvView>, Seq<Warning>), Diagnostic>(
                (envs@, warnings@),
            ),
        decreases roots.len() - k,
    {
        match &roots[k] {
            Root::Env(decl) => {
                match declare_env(decl, &mut envs, &mut warnings) {
                    Ok(()) => {},
                    Err(d) => {
                        proof {
                            lemma_collect_envs_fails(roots@, (k + 1) as nat, roots@.len());
                        }
                        return Err(d);
                    },
                }
            },
            _ => {},
        }
        k += 1;
    }
    Ok((envs, warnings))
}

/// Copying fails only for want of opcodes.
pub proof fn lemma_merge_error(
    entries: Seq<EntryView>,
    warnings: Seq<Warning>,
    base: nat,
    src: Seq<EntryView>,
    k: nat,
    env: Ident,
)
    ensures
        spec_merge(entries, warnings, base, src, k, env) matches Err(e) ==> e
            == ErrorKind::BytecodeLimit(env),
    decreases k,
{
    if k > 0 && k <= src.len() {
        lemma_merge_error(entries, warnings, base, src, (k - 1) as nat, env);
    }
}

/// A `use` that would move an opcode above 255 fails for want of opcodes:
/// where the environment's next free opcode and an opcode of the used
/// environment add up to more than 255, nothing is copied.
pub proof fn lemma_use_past_limit(
    entries: Seq<EntryView>,
    warnings: Seq<Warning>,
    base: nat,
    src: Seq<EntryView>,
    env: Ident,
    j: int,
)
    requires
        0 <= j < src.len(),
        src[j].func.kind matches FuncKindView::Normal { id } && base + id > 255,
    ensures
        spec_merge(entries, warnings, base, src, src.len(), env) == Err::<
            (Seq<EntryView>, Seq<Warning>),
            ErrorKind,
        >(ErrorKind::BytecodeLimit(env)),
{
    lemma_merge_error(entries, warnings, base, src, (j + 1) as nat, env);
    lemma_merge_error(entries, warnings, base, src, j as nat, env);
    assert(spec_merge(entries, warnings, base, src, (j + 1) as nat, env) is Err);
    lemma_merge_fails(entries, warnings, base, src, (j + 1) as nat, src.len(), env);
}

/// A pool statement with a constant above the largest size is refused, and
/// one with the largest size is accepted where the pool has not been set.
pub proof fn lemma_pool_limit(st: BuildState, env: Ident, kind: EnvStatementKind, envs: Seq<EnvView>)
    requires
        kind matches EnvStatementKind::Pool { size } && (spec_const_eval(size@) matches Some(n)
            && n >= MAX_POOL_SIZE),
    ensures
        ({
            let n = spec_const_eval(kind->Pool_size@).unwrap();
            if n > MAX_POOL_SIZE {
                spec_process_stmt(st, env, kind, envs) == Err::<BuildState, ErrorKind>(
                    ErrorKind::PoolTooLarge(n),
                )
            } else if st.pool is Some {
                spec_process_stmt(st, env, kind, envs) == Err::<BuildState, ErrorKind>(
                    ErrorKind::DuplicatePool,
                )
            } else {
                spec_process_stmt(st, env, kind, envs) == Ok::<BuildState, ErrorKind>(
                    BuildState { pool: Some(65534u16), ..st },
                )
            }
        }),
{
}

} // verus!
