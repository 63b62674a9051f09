//! Primitive integer types, the promotion rule for binary operations, and
//! the table of the types that a program names.

use crate::diag::{Diagnostic, ErrorKind, Feature};
use crate::ident::{can_intern, name_position, names_extend, spec_intern, Ident, Interner};
use crate::parsing::{Root, StructMember};
use crate::text::{decimal, spec_decimal};
use vstd::prelude::*;
use vstd::string::*;

verus! {

/// A primitive integer type: its signedness and its size in bytes.
#[derive(Clone, Copy, Debug, PartialEq, Eq, Structural)]
pub struct Type {
    pub signed: bool,
    pub size: u8,
}

impl Type {
    /// A type occupies at least one byte.
    pub open spec fn wf(self) -> bool {
        self.size >= 1
    }

    /// The result type of a binary operation on operands of types `l` and `r`.
    pub open spec fn spec_promote(l: Type, r: Type) -> Type {
        Type { signed: l.signed || r.signed, size: if l.size >= r.size { l.size } else { r.size } }
    }

    /// Computes the type that both operands of a binary operation are promoted to.
    pub fn promote(l: Type, r: Type) -> (res: Type)
        ensures
            res == Type::spec_promote(l, r),
    {
        Type { signed: l.signed || r.signed, size: if l.size >= r.size { l.size } else { r.size } }
    }
}

/// Promotion does not depend on the order of its operands.
pub proof fn lemma_promote_commutative(l: Type, r: Type)
    ensures
        Type::spec_promote(l, r) == Type::spec_promote(r, l),
{
}

/// Promoting a type with itself gives that type back.
pub proof fn lemma_promote_idempotent(t: Type)
    ensures
        Type::spec_promote(t, t) == t,
{
}

/// Promotion keeps types well formed: the result is as wide as the wider operand.
pub proof fn lemma_promote_wf(l: Type, r: Type)
    requires
        l.wf(),
        r.wf(),
    ensures
        Type::spec_promote(l, r).wf(),
{
}

/// The way a type is written in the name of an opcode: `u` or `i`, and the
/// number of bits.
pub open spec fn spec_type_text(t: Type) -> Seq<char> {
    seq![if t.signed { 'i' } else { 'u' }] + spec_decimal((t.size * 8) as nat)
}

impl Type {
    /// Writes the type as it stands in the name of an opcode.
    pub fn text(&self) -> (res: String)
        ensures
            res@ == spec_type_text(*self),
    {
        proof {
            reveal_strlit("i");
            reveal_strlit("u");
            assert("i"@ =~= seq!['i']);
            assert("u"@ =~= seq!['u']);
        }
        let mut res = String::from_str(if self.signed { "i" } else { "u" });
        let bits = decimal(self.size as u64 * 8);
        res.append(bits.as_str());
        res
    }
}

/// What a type name stands for.
#[derive(Debug)]
pub enum TypeDef {
    /// A primitive integer type.
    Primitive(Type),
    /// Another name for a type.
    Alias(Ident),
    /// A structure with these members.
    Struct(Vec<StructMember>),
}

/// [`TypeDef`] as a mathematical value.
pub enum TypeDefView {
    Primitive(Type),
    Alias(Ident),
    Struct(Seq<StructMember>),
}

impl View for TypeDef {
    type V = TypeDefView;

    open spec fn view(&self) -> TypeDefView {
        match *self {
            TypeDef::Primitive(t) => TypeDefView::Primitive(t),
            TypeDef::Alias(target) => TypeDefView::Alias(target),
            TypeDef::Struct(members) => TypeDefView::Struct(members@),
        }
    }
}

/// A type with its name.
pub struct TypeEntryView {
    pub name: Ident,
    pub def: TypeDefView,
}

/// A type with its name.
#[derive(Debug)]
pub struct TypeEntry {
    name: Ident,
    def: TypeDef,
}

impl View for TypeEntry {
    type V = TypeEntryView;

    closed spec fn view(&self) -> TypeEntryView {
        TypeEntryView { name: self.name, def: self.def@ }
    }
}

/// Whether the entries define the type `name`.
pub open spec fn has_type(entries: Seq<TypeEntryView>, name: Ident) -> bool {
    exists|i: int| 0 <= i < entries.len() && (#[trigger] entries[i]).name == name
}

/// Where the entries define the type `name`.
pub open spec fn type_pos(entries: Seq<TypeEntryView>, name: Ident) -> int {
    choose|i: int| 0 <= i < entries.len() && (#[trigger] entries[i]).name == name
}

/// No type name is defined twice, and every primitive type has a size.
pub open spec fn types_wf(entries: Seq<TypeEntryView>) -> bool {
    &&& forall|i: int, j: int|
        0 <= i < entries.len() && 0 <= j < entries.len() && i != j ==> (#[trigger] entries[i]).name
            != (#[trigger] entries[j]).name
    &&& forall|i: int|
        0 <= i < entries.len() ==> ((#[trigger] entries[i]).def matches TypeDefView::Primitive(t)
            ==> t.wf())
}

/// Follows type aliases from `name` to a primitive type, in at most `fuel`
/// steps.
pub open spec fn spec_resolve_type(entries: Seq<TypeEntryView>, name: Ident, fuel: nat) -> Result<
    Type,
    ErrorKind,
>
    decreases fuel,
{
    if !has_type(entries, name) {
        Err(ErrorKind::UnknownType(name))
    } else {
        match entries[type_pos(entries, name)].def {
            TypeDefView::Primitive(t) => Ok(t),
            TypeDefView::Struct(_) => Err(ErrorKind::NotYetSupported(Feature::StructVariable)),
            TypeDefView::Alias(target) => if fuel == 0 {
                Err(ErrorKind::TypeCycle(name))
            } else {
                spec_resolve_type(entries, target, (fuel - 1) as nat)
            },
        }
    }
}

/// The primitive type that `name` stands for. A chain of aliases that is
/// longer than the table runs in a circle.
pub open spec fn spec_type_of(entries: Seq<TypeEntryView>, name: Ident) -> Result<Type, ErrorKind> {
    spec_resolve_type(entries, name, entries.len())
}

/// The table with one more type, unless the name is taken.
pub open spec fn spec_add_type(entries: Seq<TypeEntryView>, name: Ident, def: TypeDefView) -> Result<
    Seq<TypeEntryView>,
    ErrorKind,
> {
    if has_type(entries, name) {
        Err(ErrorKind::DuplicateType(name))
    } else {
        Ok(entries.push(TypeEntryView { name, def }))
    }
}

/// The types that every program starts with: `u8` and `u16`.
pub open spec fn seed_types(u8_name: Ident, u16_name: Ident) -> Seq<TypeEntryView> {
    seq![
        TypeEntryView {
            name: u8_name,
            def: TypeDefView::Primitive(Type { signed: false, size: 1 }),
        },
        TypeEntryView {
            name: u16_name,
            def: TypeDefView::Primitive(Type { signed: false, size: 2 }),
        },
    ]
}

/// The table after the typedefs and structures among `roots` have been added
/// to `entries` in their order, or the error of the first that cannot be.
pub open spec fn spec_collect_types(entries: Seq<TypeEntryView>, roots: Seq<Root>) -> Result<
    Seq<TypeEntryView>,
    ErrorKind,
>
    decreases roots.len(),
{
    if roots.len() == 0 {
        Ok(entries)
    } else {
        match spec_collect_types(entries, roots.drop_last()) {
            Err(e) => Err(e),
            Ok(before) => match roots.last() {
                Root::Typedef(typedef) => spec_add_type(
                    before,
                    typedef.name,
                    TypeDefView::Alias(typedef.target),
                ),
                Root::Struct(s) => spec_add_type(before, s.name, TypeDefView::Struct(s.members@)),
                _ => Ok(before),
            },
        }
    }
}

/// The types of a program by their names.
#[derive(Debug)]
pub struct TypeTable {
    entries: Vec<TypeEntry>,
}

impl View for TypeTable {
    type V = Seq<TypeEntryView>;

    closed spec fn view(&self) -> Seq<TypeEntryView> {
        self.entries@.map_values(|e: TypeEntry| e@)
    }
}

/// Copies the members of a structure.
fn duplicate_members(members: &Vec<StructMember>) -> (res: Vec<StructMember>)
    ensures
        res@ == members@,
{
    let mut res: Vec<StructMember> = Vec::new();
    let mut i: usize = 0;
    while i < members.len()
        invariant
            i <= members.len(),
            res@ == members@.take(i as int),
        decreases members.len() - i,
    {
        res.push(members[i]);
        proof {
            assert(members@.take(i + 1) =~= members@.take(i as int).push(members@[i as int]));
        }
        i += 1;
    }
    proof {
        assert(members@.take(members.len() as int) =~= members@);
    }
    res
}

impl TypeTable {
    /// No type name is defined twice, and every primitive type has a size.
    pub open spec fn wf(self) -> bool {
        types_wf(self@)
    }

    /// A table without types.
    pub fn new() -> (res: TypeTable)
        ensures
            res.wf(),
            res@ == Seq::<TypeEntryView>::empty(),
    {
        let res = TypeTable { entries: Vec::new() };
        proof {
            assert(res@ =~= Seq::empty());
        }
        res
    }

    fn position(&self, name: Ident) -> (res: Option<usize>)
        requires
            self.wf(),
        ensures
            match res {
                Some(i) => has_type(self@, name) && type_pos(self@, name) == i,
                None => !has_type(self@, name),
            },
    {
        let mut i: usize = 0;
        while i < self.entries.len()
            invariant
                self.wf(),
                i <= self.entries.len(),
                forall|k: int| 0 <= k < i ==> (#[trigger] self@[k]).name != name,
            decreases self.entries.len() - i,
        {
            if self.entries[i].name == name {
                proof {
                    assert(self@[i as int].name == name);
                }
                return Some(i);
            }
            i += 1;
        }
        None
    }

    /// Adds a type under a name that is not taken yet.
    pub fn define(&mut self, name: Ident, def: TypeDef) -> (res: Result<(), ErrorKind>)
        requires
            old(self).wf(),
            def matches TypeDef::Primitive(t) ==> t.wf(),
        ensures
            final(self).wf(),
            match spec_add_type(old(self)@, name, def@) {
                Ok(entries) => res is Ok && final(self)@ == entries,
                Err(e) => res == Err::<(), ErrorKind>(e) && final(self)@ == old(self)@,
            },
    {
        if self.position(name).is_some() {
            return Err(ErrorKind::DuplicateType(name));
        }
        let ghost before = self@;
        let ghost added = TypeEntryView { name, def: def@ };
        self.entries.push(TypeEntry { name, def });
        proof {
            assert(self@ =~= before.push(added));
            assert forall|i: int, j: int|
                0 <= i < self@.len() && 0 <= j < self@.len() && i != j implies (#[trigger] self@[i]).name
                != (#[trigger] self@[j]).name by {
                if i < before.len() {
                    assert(before[i].name == self@[i].name);
                }
                if j < before.len() {
                    assert(before[j].name == self@[j].name);
                }
            }
            assert forall|i: int| 0 <= i < self@.len() implies ((#[trigger] self@[i]).def matches TypeDefView::Primitive(
                t,
            ) ==> t.wf()) by {
                if i < before.len() {
                    assert(before[i] == self@[i]);
                }
            }
        }
        Ok(())
    }

    /// The primitive type that `name` stands for. Fails where the name is not
    /// a type, where it names a structure, and where its aliases run in a
    /// circle.
    pub fn lookup(&self, name: Ident) -> (res: Result<Type, ErrorKind>)
        requires
            self.wf(),
        ensures
            res == spec_type_of(self@, name),
            res matches Ok(t) ==> t.wf(),
    {
        let mut current = name;
        let mut fuel: usize = self.entries.len();
        loop
            invariant
                self.wf(),
                fuel <= self@.len(),
                spec_resolve_type(self@, current, fuel as nat) == spec_type_of(self@, name),
            decreases fuel,
        {
            match self.position(current) {
                None => {
                    return Err(ErrorKind::UnknownType(current));
                },
                Some(i) => match &self.entries[i].def {
                    TypeDef::Primitive(t) => {
                        proof {
                            assert(self@[i as int].def == TypeDefView::Primitive(*t));
                        }
                        return Ok(*t);
                    },
                    TypeDef::Struct(_) => {
                        return Err(ErrorKind::NotYetSupported(Feature::StructVariable));
                    },
                    TypeDef::Alias(target) => {
                        if fuel == 0 {
                            return Err(ErrorKind::TypeCycle(current));
                        }
                        current = *target;
                        fuel -= 1;
                    },
                },
            }
        }
    }
}

/// Whether the names of the primitive types can be interned.
pub open spec fn type_names_fit(names: Seq<Seq<char>>) -> bool {
    can_intern(names, "u8"@) && can_intern(spec_intern(names, "u8"@), "u16"@)
}

/// Collects the types of a program: the primitive types `u8` and `u16`, and
/// the typedefs and structures among the declarations, in their order. A name
/// that is defined twice is an error, and so is one that redefines a
/// primitive type. The names of the primitive types are interned first, which
/// fails where the interner has no handle left for them.
#[verifier::loop_isolation(false)]
pub fn collect_types(roots: &Vec<Root>, idents: &mut Interner) -> (res: Result<
    TypeTable,
    Diagnostic,
>)
    requires
        old(idents).wf(),
    ensures
        final(idents).wf(),
        names_extend(old(idents)@, final(idents)@),
        if type_names_fit(old(idents)@) {
            &&& final(idents)@ == spec_intern(spec_intern(old(idents)@, "u8"@), "u16"@)
            &&& name_position(final(idents)@, "u8"@) matches Some(u8_name)
            &&& name_position(final(idents)@, "u16"@) matches Some(u16_name)
            &&& match spec_collect_types(seed_types(u8_name, u16_name), roots@) {
                Ok(entries) => res matches Ok(table) && table.wf() && table@ == entries,
                Err(kind) => res matches Err(d) && d == (Diagnostic { kind, span: None }),
            }
        } else {
            res matches Err(d) && d == (Diagnostic { kind: ErrorKind::TooManyIdentifiers, span: None })
        },
{
    let ghost names0 = idents@;
    let u8_name = match idents.intern("u8") {
        Some(id) => id,
        None => {
            return Err(Diagnostic { kind: ErrorKind::TooManyIdentifiers, span: None });
        },
    };
    let ghost names1 = idents@;
    let u16_name = match idents.intern("u16") {
        Some(id) => id,
        None => {
            return Err(Diagnostic { kind: ErrorKind::TooManyIdentifiers, span: None });
        },
    };
    proof {
        reveal_strlit("u8");
        reveal_strlit("u16");
        assert("u8"@.len() != "u16"@.len());
        assert(names1.contains("u8"@));
        let i = names1.index_of("u8"@);
        assert(idents@[i] == "u8"@);
        assert(idents@.contains("u8"@));
        assert(idents@.index_of("u8"@) == i);
        crate::ident::Ident::lemma_at_index(i as nat);
        crate::ident::Ident::lemma_at_index(idents@.index_of("u16"@) as nat);
    }
    let mut table = TypeTable::new();
    let first = table.define(u8_name, TypeDef::Primitive(Type { signed: false, size: 1 }));
    let second = table.define(u16_name, TypeDef::Primitive(Type { signed: false, size: 2 }));
    proof {
        assert(first is Ok && second is Ok);
        assert(table@ =~= seed_types(u8_name, u16_name));
    }
    let mut i: usize = 0;
    while i < roots.len()
        invariant
            i <= roots.len(),
            table.wf(),
            spec_collect_types(seed_types(u8_name, u16_name), roots@.take(i as int)) == Ok::<
                Seq<TypeEntryView>,
                ErrorKind,
            >(table@),
        decreases roots.len() - i,
    {
        proof {
            assert(roots@.take(i + 1).drop_last() =~= roots@.take(i as int));
            assert(roots@.take(i + 1).last() == roots@[i as int]);
        }
        let added = match &roots[i] {
            Root::Typedef(typedef) => table.define(typedef.name, TypeDef::Alias(typedef.target)),
            Root::Struct(s) => table.define(s.name, TypeDef::Struct(duplicate_members(&s.members))),
            _ => Ok(()),
        };
        if let Err(kind) = added {
            proof {
                lemma_collect_types_fails(seed_types(u8_name, u16_name), roots@, i + 1);
            }
            return Err(Diagnostic { kind, span: None });
        }
        i += 1;
    }
    proof {
        assert(roots@.take(roots.len() as int) =~= roots@);
    }
    Ok(table)
}

/// Once a declaration has been refused, the declarations behind it are not
/// looked at.
pub proof fn lemma_collect_types_fails(entries: Seq<TypeEntryView>, roots: Seq<Root>, k: int)
    requires
        0 <= k <= roots.len(),
        spec_collect_types(entries, roots.take(k)) is Err,
    ensures
        spec_collect_types(entries, roots) == spec_collect_types(entries, roots.take(k)),
    decreases roots.len(),
{
    if k == roots.len() {
        assert(roots.take(k) =~= roots);
    } else {
        assert(roots.drop_last().take(k) =~= roots.take(k));
        lemma_collect_types_fails(entries, roots.drop_last(), k);
    }
}

} // verus!
