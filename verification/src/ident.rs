//! Identifiers: small integer handles for interned strings, and the interner
//! that hands them out.

use string_interner::Symbol;
use vstd::prelude::*;

verus! {

/// A handle for an interned string. Two identifiers are the same name exactly
/// when their handles are equal.
#[derive(Clone, Copy, Debug, PartialEq, Eq, Structural, Hash)]
pub struct Ident {
    index: u32,
}

impl Ident {
    /// The position of the identifier's string among the interned strings.
    pub closed spec fn index(self) -> nat {
        self.index as nat
    }

    /// The identifier that stands at position `i`.
    pub closed spec fn at(i: nat) -> Ident {
        Ident { index: i as u32 }
    }

    /// Positions below 2^32 and identifiers correspond one to one.
    pub broadcast proof fn lemma_at_index(i: nat)
        requires
            i <= u32::MAX,
        ensures
            (#[trigger] Ident::at(i)).index() == i,
    {
    }

    /// An identifier is determined by its position.
    pub broadcast proof fn lemma_index_at(id: Ident)
        ensures
            Ident::at(#[trigger] id.index()) == id,
            id.index() <= u32::MAX,
    {
    }
}

/// The string interner of the `string_interner` crate, with its default
/// backend and 32-bit symbols. Verus sees nothing of its inside; what it holds
/// is named by [`interned`].
#[verifier::external_body]
pub struct Interner {
    inner: string_interner::StringInterner,
}

/// The strings that an interner holds, in the order in which they were first
/// interned. The string at position `i` is the one that the symbol with index
/// `i` resolves to.
pub uninterp spec fn interned(idents: Interner) -> Seq<Seq<char>>;

/// Where `s` stands in `names`, if it occurs there.
pub open spec fn name_position(names: Seq<Seq<char>>, s: Seq<char>) -> Option<Ident> {
    if names.contains(s) {
        Some(Ident::at(names.index_of(s) as nat))
    } else {
        None
    }
}

/// The string that `id` stands for in `names`, if it is a handle into them.
pub open spec fn name_of(names: Seq<Seq<char>>, id: Ident) -> Option<Seq<char>> {
    if id.index() < names.len() {
        Some(names[id.index() as int])
    } else {
        None
    }
}

/// The interned strings after `s` has been interned: a string that is new
/// goes behind the others.
pub open spec fn spec_intern(names: Seq<Seq<char>>, s: Seq<char>) -> Seq<Seq<char>> {
    if names.contains(s) {
        names
    } else {
        names.push(s)
    }
}

/// Whether `s` can be interned: it has a handle already, or a handle is left
/// for it.
pub open spec fn can_intern(names: Seq<Seq<char>>, s: Seq<char>) -> bool {
    names.contains(s) || names.len() < MAX_IDENTS
}

/// The earlier strings are the first of the later ones.
pub open spec fn names_extend(before: Seq<Seq<char>>, after: Seq<Seq<char>>) -> bool {
    &&& before.len() <= after.len()
    &&& forall|i: int| 0 <= i < before.len() ==> #[trigger] after[i] == before[i]
}

/// A string that stands in `names` at the position of `id` is found there
/// under `id`.
pub proof fn lemma_position_of(names: Seq<Seq<char>>, id: Ident, s: Seq<char>)
    requires
        names.no_duplicates(),
        id.index() < names.len(),
        names[id.index() as int] == s,
    ensures
        name_position(names, s) == Some(id),
{
    broadcast use Ident::lemma_index_at;

    assert(names.contains(s));
    let i = names.index_of(s);
    assert(i == id.index());
}

/// A string that is found under `id` stands at the position of `id`.
pub proof fn lemma_position_is(names: Seq<Seq<char>>, id: Ident, s: Seq<char>)
    requires
        names.len() <= MAX_IDENTS,
        name_position(names, s) == Some(id),
    ensures
        id.index() < names.len(),
        names[id.index() as int] == s,
{
    broadcast use Ident::lemma_at_index;

    let i = names.index_of(s);
    assert(names.contains(s));
    assert(0 <= i < names.len() && names[i] == s);
}

/// Interning further strings changes no handle.
pub proof fn lemma_position_stable(
    before: Seq<Seq<char>>,
    after: Seq<Seq<char>>,
    id: Ident,
    s: Seq<char>,
)
    requires
        names_extend(before, after),
        after.no_duplicates(),
        after.len() <= MAX_IDENTS,
        name_position(before, s) == Some(id),
    ensures
        name_position(after, s) == Some(id),
{
    lemma_position_is(before, id, s);
    lemma_position_of(after, id, s);
}

/// The number of symbols that the interner can hand out.
pub const MAX_IDENTS: usize = 0xffff_ffff;

impl View for Interner {
    type V = Seq<Seq<char>>;

    open spec fn view(&self) -> Seq<Seq<char>> {
        interned(*self)
    }
}

impl Interner {
    /// No string is interned twice, and every string has a 32-bit handle.
    pub open spec fn wf(self) -> bool {
        &&& self@.no_duplicates()
        &&& self@.len() <= MAX_IDENTS
    }

    /// `StringInterner::new`: an interner that holds no strings.
    #[verifier::external_body]
    fn raw_new() -> (res: Interner)
        ensures
            interned(res) == Seq::<Seq<char>>::empty(),
    {
        Interner { inner: string_interner::StringInterner::new() }
    }

    /// `StringInterner::len`: the number of strings interned so far.
    #[verifier::external_body]
    fn raw_len(&self) -> (res: usize)
        ensures
            res == interned(*self).len(),
    {
        self.inner.len()
    }

    /// `StringInterner::get`: the symbol of a string that was interned before,
    /// and `None` for a string that was not.
    #[verifier::external_body]
    fn raw_get(&self, s: &str) -> (res: Option<Ident>)
        ensures
            match res {
                Some(id) => id.index() < interned(*self).len() && interned(*self)[
                    id.index() as int
                ] == s@,
                None => !interned(*self).contains(s@),
            },
    {
        self.inner.get(s).map(|sym| Ident { index: sym.to_usize() as u32 })
    }

    /// `StringInterner::get_or_intern`: a string that was interned before keeps
    /// its symbol and nothing changes; a new string is stored behind the others
    /// and gets the next index. The call panics once every 32-bit symbol has
    /// been handed out, which the precondition excludes.
    #[verifier::external_body]
    fn raw_get_or_intern(&mut self, s: &str) -> (res: Ident)
        requires
            interned(*old(self)).len() < MAX_IDENTS,
        ensures
            interned(*old(self)).contains(s@) ==> {
                &&& interned(*final(self)) == interned(*old(self))
                &&& res.index() < interned(*old(self)).len()
                &&& interned(*old(self))[res.index() as int] == s@
            },
            !interned(*old(self)).contains(s@) ==> {
                &&& interned(*final(self)) == interned(*old(self)).push(s@)
                &&& res.index() == interned(*old(self)).len()
            },
    {
        Ident { index: self.inner.get_or_intern(s).to_usize() as u32 }
    }

    /// `StringInterner::resolve`: the string behind a symbol, and `None` for an
    /// index that no interned string has.
    #[verifier::external_body]
    fn raw_resolve(&self, id: Ident) -> (res: Option<&str>)
        ensures
            match res {
                Some(s) => id.index() < interned(*self).len() && s@ == interned(*self)[
                    id.index() as int
                ],
                None => id.index() >= interned(*self).len(),
            },
    {
        string_interner::symbol::SymbolU32::try_from_usize(id.index as usize).and_then(
            |sym| self.inner.resolve(sym),
        )
    }

    /// An empty interner.
    pub fn new() -> (res: Interner)
        ensures
            res@ == Seq::<Seq<char>>::empty(),
            res.wf(),
    {
        Interner::raw_new()
    }

    /// The number of interned strings.
    pub fn len(&self) -> (res: usize)
        ensures
            res == self@.len(),
    {
        self.raw_len()
    }

    /// Looks a string up without interning it.
    pub fn get(&self, s: &str) -> (res: Option<Ident>)
        requires
            self.wf(),
        ensures
            res == name_position(self@, s@),
    {
        let res = self.raw_get(s);
        proof {
            broadcast use Ident::lemma_index_at;

            if let Some(id) = res {
                assert(self@.contains(s@));
                let i = self@.index_of(s@);
                assert(i == id.index());
            }
        }
        res
    }

    /// Interns a string: it gets the handle it already has, or the next free
    /// one. Returns `None`, and changes nothing, when the string is new and
    /// all handles are taken.
    pub fn intern(&mut self, s: &str) -> (res: Option<Ident>)
        requires
            old(self).wf(),
        ensures
            final(self).wf(),
            name_position(old(self)@, s@) is Some ==> {
                &&& final(self)@ == old(self)@
                &&& res == name_position(old(self)@, s@)
            },
            name_position(old(self)@, s@) is None && old(self)@.len() < MAX_IDENTS ==> {
                &&& final(self)@ == old(self)@.push(s@)
                &&& res == Some(Ident::at(old(self)@.len()))
            },
            name_position(old(self)@, s@) is None && old(self)@.len() >= MAX_IDENTS ==> {
                &&& final(self)@ == old(self)@
                &&& res is None
            },
            res is Some ==> name_position(final(self)@, s@) == res,
            res is Some ==> final(self)@ == spec_intern(old(self)@, s@),
            res is Some <==> can_intern(old(self)@, s@),
            names_extend(old(self)@, final(self)@),
    {
        let found = self.get(s);
        if found.is_some() {
            return found;
        }
        if self.raw_len() >= MAX_IDENTS {
            return None;
        }
        let id = self.raw_get_or_intern(s);
        proof {
            broadcast use Ident::lemma_index_at;

            let names = self@;
            assert(names == old(self)@.push(s@));
            assert(names[old(self)@.len() as int] == s@);
            assert(names.contains(s@));
            assert(names.no_duplicates());
            assert(names.index_of(s@) == old(self)@.len());
        }
        Some(id)
    }

    /// The string that an identifier stands for, if it is a handle of this
    /// interner.
    pub fn resolve(&self, id: Ident) -> (res: Option<&str>)
        ensures
            match res {
                Some(s) => name_of(self@, id) == Some(s@),
                None => name_of(self@, id) is None,
            },
    {
        self.raw_resolve(id)
    }
}

} // verus!
