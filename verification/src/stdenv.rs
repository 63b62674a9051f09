//! The standard environment: the opcodes that every program can use.

use crate::diag::{ErrorKind, Mnemonic};
use crate::envs::{
    has_entry, spec_lookup, EntryView, EnvView, Environment, Func, FuncKind, FuncKindView,
    FuncView,
};
use crate::ident::{
    can_intern, lemma_position_of, name_position, names_extend, spec_intern, Ident, Interner,
};
use crate::lower::{mnemonic_text, opcode_name};
use crate::parsing::DefParam;
use crate::text::spec_decimal;
use crate::types::{spec_type_text, Type};
use vstd::prelude::*;
use vstd::string::*;

verus! {

/// The number of opcode families in the standard environment.
pub const STD_FAMILIES: usize = 20;

/// The number of definitions in the standard environment: `return`, `yield`,
/// and an unsigned and a signed opcode for each family.
pub const STD_ENTRIES: usize = 42;

/// The opcode families of the standard environment, in the order of their
/// opcodes.
pub open spec fn std_family(k: int) -> Mnemonic {
    if k == 0 {
        Mnemonic::Put
    } else if k == 1 {
        Mnemonic::Mov
    } else if k == 2 {
        Mnemonic::Add
    } else if k == 3 {
        Mnemonic::Sub
    } else if k == 4 {
        Mnemonic::Mul
    } else if k == 5 {
        Mnemonic::Div
    } else if k == 6 {
        Mnemonic::Mod
    } else if k == 7 {
        Mnemonic::Shl
    } else if k == 8 {
        Mnemonic::Shr
    } else if k == 9 {
        Mnemonic::Band
    } else if k == 10 {
        Mnemonic::Bxor
    } else if k == 11 {
        Mnemonic::Bor
    } else if k == 12 {
        Mnemonic::Equ
    } else if k == 13 {
        Mnemonic::Nequ
    } else if k == 14 {
        Mnemonic::Lt
    } else if k == 15 {
        Mnemonic::Gt
    } else if k == 16 {
        Mnemonic::Lte
    } else if k == 17 {
        Mnemonic::Gte
    } else if k == 18 {
        Mnemonic::Land
    } else {
        Mnemonic::Lor
    }
}

/// The one-byte integer type of the given signedness.
pub open spec fn byte_type(signed: bool) -> Type {
    Type { signed, size: 1 }
}

/// The name of the `x`-th definition of the standard environment: `return`,
/// `yield`, then for each family its unsigned and its signed opcode.
pub open spec fn std_entry_text(x: int) -> Seq<char> {
    if x == 0 {
        "return"@
    } else if x == 1 {
        "yield"@
    } else {
        opcode_name(std_family((x - 2) / 2), byte_type((x - 2) % 2 == 1))
    }
}

/// The first three characters of a text and the one before its last.
pub open spec fn fingerprint(text: Seq<char>) -> (char, char, char, char) {
    (text[0], text[1], text[2], text[text.len() - 2])
}

/// The first three characters of the name of a family's opcode.
pub open spec fn family_start(m: Mnemonic) -> (char, char, char) {
    match m {
        Mnemonic::Put => ('p', 'u', 't'),
        Mnemonic::Mov => ('m', 'o', 'v'),
        Mnemonic::Mul => ('m', 'u', 'l'),
        Mnemonic::Div => ('d', 'i', 'v'),
        Mnemonic::Mod => ('m', 'o', 'd'),
        Mnemonic::Add => ('a', 'd', 'd'),
        Mnemonic::Sub => ('s', 'u', 'b'),
        Mnemonic::Shl => ('s', 'h', 'l'),
        Mnemonic::Shr => ('s', 'h', 'r'),
        Mnemonic::Band => ('b', 'a', 'n'),
        Mnemonic::Bxor => ('b', 'x', 'o'),
        Mnemonic::Bor => ('b', 'o', 'r'),
        Mnemonic::Equ => ('e', 'q', 'u'),
        Mnemonic::Nequ => ('n', 'e', 'q'),
        Mnemonic::Lt => ('l', 't', '_'),
        Mnemonic::Gt => ('g', 't', '_'),
        Mnemonic::Lte => ('l', 't', 'e'),
        Mnemonic::Gte => ('g', 't', 'e'),
        Mnemonic::Land => ('l', 'a', 'n'),
        Mnemonic::Lor => ('l', 'o', 'r'),
    }
}

/// The name of a one-byte opcode starts with the first characters of its
/// family and has the letter of its signedness before its last character.
#[verifier::rlimit(50)]
pub proof fn lemma_opcode_fingerprint(m: Mnemonic, signed: bool)
    ensures
        fingerprint(opcode_name(m, byte_type(signed))) == (
            family_start(m).0,
            family_start(m).1,
            family_start(m).2,
            if signed {
                'i'
            } else {
                'u'
            },
        ),
{
    reveal_strlit("put");
    reveal_strlit("mov");
    reveal_strlit("mul");
    reveal_strlit("div");
    reveal_strlit("mod");
    reveal_strlit("add");
    reveal_strlit("sub");
    reveal_strlit("shl");
    reveal_strlit("shr");
    reveal_strlit("band");
    reveal_strlit("bxor");
    reveal_strlit("bor");
    reveal_strlit("equ");
    reveal_strlit("nequ");
    reveal_strlit("lt");
    reveal_strlit("gt");
    reveal_strlit("lte");
    reveal_strlit("gte");
    reveal_strlit("land");
    reveal_strlit("lor");
    let head = mnemonic_text(m);
    let tail = spec_type_text(byte_type(signed));
    let text = opcode_name(m, byte_type(signed));
    assert(spec_decimal(8) =~= seq!['8']);
    assert(tail =~= seq![if signed { 'i' } else { 'u' }, '8']);
    assert(text =~= head + seq!['_', if signed { 'i' } else { 'u' }, '8']);
    assert(2 <= head.len() <= 4);
    assert(text.len() == head.len() + 3);
    assert(text[text.len() - 2] == if signed { 'i' } else { 'u' });
    assert(text[0] == head[0]);
    assert(text[1] == head[1]);
    assert(text[2] == if head.len() == 2 { '_' } else { head[2] });
}

/// The names of the standard environment's definitions differ from one
/// another.
#[verifier::rlimit(50)]
pub proof fn lemma_std_texts_distinct(x: int, y: int)
    requires
        0 <= x < STD_ENTRIES,
        0 <= y < STD_ENTRIES,
        x != y,
    ensures
        std_entry_text(x) != std_entry_text(y),
{
    reveal_strlit("return");
    reveal_strlit("yield");
    assert(fingerprint("return"@) == ('r', 'e', 't', 'r'));
    assert(fingerprint("yield"@) == ('y', 'i', 'e', 'l'));
    if x >= 2 {
        lemma_opcode_fingerprint(std_family((x - 2) / 2), (x - 2) % 2 == 1);
    }
    if y >= 2 {
        lemma_opcode_fingerprint(std_family((y - 2) / 2), (y - 2) % 2 == 1);
    }
    assert(fingerprint(std_entry_text(x)) != fingerprint(std_entry_text(y)));
}

/// The names that the standard environment interns, in the order in which it
/// interns them: its own name, then those of its definitions.
pub open spec fn std_name(i: int) -> Seq<char> {
    if i == 0 {
        "std"@
    } else {
        std_entry_text(i - 1)
    }
}

/// The interned strings after the first `k` names of the standard
/// environment have been interned.
pub open spec fn spec_intern_std(names: Seq<Seq<char>>, k: nat) -> Seq<Seq<char>>
    decreases k,
{
    if k == 0 {
        names
    } else {
        spec_intern(spec_intern_std(names, (k - 1) as nat), std_name(k - 1))
    }
}

/// Whether the first `k` names of the standard environment can be interned
/// one after the other.
pub open spec fn std_names_fit(names: Seq<Seq<char>>, k: nat) -> bool
    decreases k,
{
    k == 0 || (std_names_fit(names, (k - 1) as nat) && can_intern(
        spec_intern_std(names, (k - 1) as nat),
        std_name(k - 1),
    ))
}

/// Where the first names cannot be interned, more of them cannot either.
pub proof fn lemma_std_names_fit(names: Seq<Seq<char>>, k: nat, n: nat)
    requires
        k <= n,
        std_names_fit(names, n),
    ensures
        std_names_fit(names, k),
    decreases n,
{
    if k < n {
        lemma_std_names_fit(names, k, (n - 1) as nat);
    }
}

/// How the `x`-th definition of the standard environment is carried out:
/// `return` and `yield` have the opcodes 0 and 1, the unsigned opcode of the
/// `j`-th family has the opcode `j + 2`, and the signed one is an alias of
/// the unsigned one.
pub open spec fn std_kind(names: Seq<Seq<char>>, x: int) -> FuncKindView {
    if x < 2 {
        FuncKindView::Normal { id: x as u8 }
    } else if (x - 2) % 2 == 0 {
        FuncKindView::Normal { id: ((x - 2) / 2 + 2) as u8 }
    } else {
        FuncKindView::Alias {
            target: name_position(names, std_entry_text(x - 1)).unwrap(),
            target_args: Seq::empty(),
        }
    }
}

/// The `x`-th definition of the standard environment. None takes parameters.
pub open spec fn std_entry(names: Seq<Seq<char>>, x: int) -> EntryView {
    EntryView {
        name: name_position(names, std_entry_text(x)).unwrap(),
        func: FuncView { args: Seq::empty(), kind: std_kind(names, x) },
    }
}

/// The standard environment, given the interned strings.
pub open spec fn std_view(names: Seq<Seq<char>>) -> EnvView {
    EnvView {
        name: name_position(names, "std"@).unwrap(),
        entries: Seq::new(STD_ENTRIES as nat, |x: int| std_entry(names, x)),
        pool: 0,
    }
}

/// The `k`-th opcode family of the standard environment.
pub fn std_mnemonic(k: usize) -> (res: Mnemonic)
    requires
        k < STD_FAMILIES,
    ensures
        res == std_family(k as int),
{
    if k == 0 {
        Mnemonic::Put
    } else if k == 1 {
        Mnemonic::Mov
    } else if k == 2 {
        Mnemonic::Add
    } else if k == 3 {
        Mnemonic::Sub
    } else if k == 4 {
        Mnemonic::Mul
    } else if k == 5 {
        Mnemonic::Div
    } else if k == 6 {
        Mnemonic::Mod
    } else if k == 7 {
        Mnemonic::Shl
    } else if k == 8 {
        Mnemonic::Shr
    } else if k == 9 {
        Mnemonic::Band
    } else if k == 10 {
        Mnemonic::Bxor
    } else if k == 11 {
        Mnemonic::Bor
    } else if k == 12 {
        Mnemonic::Equ
    } else if k == 13 {
        Mnemonic::Nequ
    } else if k == 14 {
        Mnemonic::Lt
    } else if k == 15 {
        Mnemonic::Gt
    } else if k == 16 {
        Mnemonic::Lte
    } else if k == 17 {
        Mnemonic::Gte
    } else if k == 18 {
        Mnemonic::Land
    } else {
        Mnemonic::Lor
    }
}

/// The name of the `x`-th definition of the standard environment.
pub fn std_entry_name(x: usize) -> (res: String)
    requires
        x < STD_ENTRIES,
    ensures
        res@ == std_entry_text(x as int),
{
    if x == 0 {
        String::from_str("return")
    } else if x == 1 {
        String::from_str("yield")
    } else {
        crate::compiler::opcode_name_string(
            std_mnemonic((x - 2) / 2),
            Type { signed: (x - 2) % 2 == 1, size: 1 },
        )
    }
}

impl Environment {
    /// The standard environment: `return`, `yield`, and for each of the
    /// families put, mov, add, sub, mul, div, mod, shl, shr, band, bxor, bor,
    /// equ, nequ, lt, gt, lte, gte, land and lor an opcode on unsigned bytes
    /// and an alias of it for signed bytes. Signedness chooses the name and
    /// never the opcode.
    ///
    /// The names are interned first. This fails where the interner has no
    /// handle left for one of them, and only there.
    #[verifier::loop_isolation(false)]
    #[verifier::rlimit(50)]
    pub fn standard(idents: &mut Interner) -> (res: Result<Environment, ErrorKind>)
        requires
            old(idents).wf(),
        ensures
            final(idents).wf(),
            names_extend(old(idents)@, final(idents)@),
            if std_names_fit(old(idents)@, (STD_ENTRIES + 1) as nat) {
                &&& res matches Ok(env)
                &&& env.wf()
                &&& env@ == std_view(final(idents)@)
                &&& final(idents)@ == spec_intern_std(old(idents)@, (STD_ENTRIES + 1) as nat)
                &&& final(idents)@.contains("std"@)
                &&& forall|x: int|
                    0 <= x < STD_ENTRIES ==> final(idents)@.contains(#[trigger] std_entry_text(x))
            } else {
                res matches Err(e) && e == ErrorKind::TooManyIdentifiers
            },
    {
        let ghost names0 = idents@;
        let std_id = match idents.intern("std") {
            Some(id) => id,
            None => {
                proof {
                    assert(!std_names_fit(names0, 1));
                    if std_names_fit(names0, (STD_ENTRIES + 1) as nat) {
                        lemma_std_names_fit(names0, 1, (STD_ENTRIES + 1) as nat);
                    }
                }
                return Err(ErrorKind::TooManyIdentifiers);
            },
        };
        let mut env = Environment::new(std_id);
        let ghost mut ids: Seq<Ident> = Seq::empty();
        let mut previous = std_id;
        let mut x: usize = 0;
        proof {
            broadcast use Ident::lemma_index_at;
            broadcast use Ident::lemma_at_index;

            assert(spec_intern_std(names0, 1) == spec_intern(spec_intern_std(names0, 0), "std"@));
            assert(std_names_fit(names0, 0));
            assert(std_name(0) == "std"@);
            assert(std_names_fit(names0, 1));
            assert(idents@.contains("std"@));
            assert(std_id.index() == idents@.index_of("std"@));
        }
        while x < STD_ENTRIES
            invariant
                x <= STD_ENTRIES,
                idents.wf(),
                std_names_fit(names0, (x + 1) as nat),
                names_extend(names0, idents@),
                idents@ == spec_intern_std(names0, (x + 1) as nat),
                std_id.index() < idents@.len(),
                idents@[std_id.index() as int] == "std"@,
                env.wf(),
                env@.name == std_id,
                env@.pool == 0,
                env@.entries.len() == x,
                ids.len() == x,
                x > 0 ==> previous == ids[x - 1],
                forall|y: int|
                    0 <= y < x ==> {
                        &&& (#[trigger] ids[y]).index() < idents@.len()
                        &&& idents@[ids[y].index() as int] == std_entry_text(y)
                    },
                forall|y: int|
                    0 <= y < x ==> {
                        &&& (#[trigger] env@.entries[y]).name == ids[y]
                        &&& env@.entries[y].func.args == Seq::<DefParam>::empty()
                        &&& env@.entries[y].func.kind == if y < 2 {
                            FuncKindView::Normal { id: y as u8 }
                        } else if (y - 2) % 2 == 0 {
                            FuncKindView::Normal { id: ((y - 2) / 2 + 2) as u8 }
                        } else {
                            FuncKindView::Alias { target: ids[y - 1], target_args: Seq::empty() }
                        }
                    },
            decreases STD_ENTRIES - x,
        {
            let ghost names1 = idents@;
            let ghost entries1 = env@.entries;
            let text = std_entry_name(x);
            let id = match idents.intern(text.as_str()) {
                Some(id) => id,
                None => {
                    proof {
                        assert(std_name(x + 1) == std_entry_text(x as int));
                        assert(!std_names_fit(names0, (x + 2) as nat));
                        if std_names_fit(names0, (STD_ENTRIES + 1) as nat) {
                            lemma_std_names_fit(names0, (x + 2) as nat, (STD_ENTRIES + 1) as nat);
                        }
                    }
                    return Err(ErrorKind::TooManyIdentifiers);
                },
            };
            proof {
                broadcast use Ident::lemma_index_at;
                broadcast use Ident::lemma_at_index;

                assert(std_name(x + 1) == std_entry_text(x as int));
                assert(idents@.contains(text@));
                assert(id.index() == idents@.index_of(text@));
                assert(idents@[id.index() as int] == std_entry_text(x as int));
                assert forall|y: int| 0 <= y < x implies (#[trigger] ids[y]) != id by {
                    lemma_std_texts_distinct(y, x as int);
                }
                assert(!has_entry(entries1, id)) by {
                    if has_entry(entries1, id) {
                        let y = choose|y: int|
                            0 <= y < entries1.len() && (#[trigger] entries1[y]).name == id;
                        assert(ids[y] == id);
                    }
                }
            }
            let kind = if x < 2 {
                FuncKind::Normal { id: x as u8 }
            } else if (x - 2) % 2 == 0 {
                FuncKind::Normal { id: ((x - 2) / 2 + 2) as u8 }
            } else {
                FuncKind::Alias { target: previous, target_args: Vec::new() }
            };
            proof {
                if let FuncKindView::Normal { id: code } = kind@ {
                    assert(!crate::envs::has_id(entries1, code)) by {
                        if crate::envs::has_id(entries1, code) {
                            let y = crate::envs::id_pos(entries1, code);
                            assert(entries1[y].func.kind == (FuncKindView::Normal { id: code }));
                        }
                    }
                }
                assert(crate::envs::returns_count(Seq::<DefParam>::empty()) == 0);
                if let FuncKindView::Alias { target_args, .. } = kind@ {
                    assert(target_args =~= Seq::empty());
                }
            }
            let defined = env.define(id, Func { args: Vec::new(), kind });
            proof {
                ids = ids.push(id);
                assert(defined is Ok);
                assert forall|y: int| 0 <= y < x implies #[trigger] env@.entries[y] == entries1[y] by {}
            }
            previous = id;
            x += 1;
        }
        proof {
            let names = idents@;
            lemma_position_of(names, std_id, "std"@);
            assert forall|y: int| 0 <= y < STD_ENTRIES implies name_position(
                names,
                #[trigger] std_entry_text(y),
            ) == Some(ids[y]) && names.contains(std_entry_text(y)) by {
                lemma_position_of(names, ids[y], std_entry_text(y));
            }
            assert forall|y: int| 0 <= y < STD_ENTRIES implies #[trigger] env@.entries[y]
                == std_entry(names, y) by {
                assert(name_position(names, std_entry_text(y)) == Some(ids[y]));
                if y >= 1 {
                    assert(name_position(names, std_entry_text(y - 1)) == Some(ids[y - 1]));
                }
            }
            assert(env@.entries =~= std_view(names).entries);
        }
        Ok(env)
    }
}

/// The names of the standard environment's definitions have been interned.
pub open spec fn std_interned(names: Seq<Seq<char>>) -> bool {
    &&& names.no_duplicates()
    &&& names.len() <= crate::ident::MAX_IDENTS
    &&& forall|x: int| 0 <= x < STD_ENTRIES ==> names.contains(#[trigger] std_entry_text(x))
}

/// The definitions of the standard environment have different names, and
/// each is found under its name.
pub proof fn lemma_std_lookup(names: Seq<Seq<char>>, x: int)
    requires
        std_interned(names),
        0 <= x < STD_ENTRIES,
    ensures
        spec_lookup(std_view(names).entries, std_entry(names, x).name) == Some(
            std_entry(names, x).func,
        ),
{
    broadcast use Ident::lemma_at_index;

    let entries = std_view(names).entries;
    let name = std_entry(names, x).name;
    assert(entries[x].name == name);
    assert forall|y: int| 0 <= y < entries.len() && y != x implies (#[trigger] entries[y]).name
        != name by {
        lemma_std_texts_distinct(x, y);
        assert(names.contains(std_entry_text(x)));
        assert(names.contains(std_entry_text(y)));
        let i = names.index_of(std_entry_text(x));
        let j = names.index_of(std_entry_text(y));
        assert(names[i] != names[j]);
        Ident::lemma_at_index(i as nat);
        Ident::lemma_at_index(j as nat);
    }
    assert(has_entry(entries, name));
}

/// In the standard environment the unsigned and the signed opcode of a
/// family are the same opcode: the `j`-th family's is `j + 2`.
pub proof fn lemma_std_opcode(names: Seq<Seq<char>>, j: int, signed: bool)
    requires
        std_interned(names),
        0 <= j < STD_FAMILIES,
    ensures
        std_view(names).opcode_id(
            name_position(names, opcode_name(std_family(j), byte_type(signed))).unwrap(),
        ) == Ok::<u8, ErrorKind>((j + 2) as u8),
{
    let unsigned_at = 2 + 2 * j;
    let x = if signed {
        unsigned_at + 1
    } else {
        unsigned_at
    };
    assert(std_entry_text(x) == opcode_name(std_family(j), byte_type(signed)));
    assert(std_entry_text(unsigned_at) == opcode_name(std_family(j), byte_type(false)));
    lemma_std_lookup(names, x);
    lemma_std_lookup(names, unsigned_at);
    let entries = std_view(names).entries;
    let target = std_entry(names, unsigned_at).name;
    assert(crate::envs::spec_resolve(entries, target, (entries.len() - 1) as nat) == Ok::<
        Ident,
        ErrorKind,
    >(target));
    assert(crate::envs::spec_resolve(entries, target, entries.len()) == Ok::<Ident, ErrorKind>(
        target,
    ));
}

/// The standard environment stays what it is when further strings are
/// interned.
pub proof fn lemma_std_view_stable(before: Seq<Seq<char>>, after: Seq<Seq<char>>)
    requires
        std_interned(before),
        before.contains("std"@),
        names_extend(before, after),
        after.no_duplicates(),
        after.len() <= crate::ident::MAX_IDENTS,
    ensures
        std_view(after) == std_view(before),
        std_interned(after),
        after.contains("std"@),
{
    assert forall|s: Seq<char>| before.contains(s) implies after.contains(s) && name_position(
        after,
        s,
    ) == name_position(before, s) by {
        let id = name_position(before, s).unwrap();
        crate::ident::lemma_position_stable(before, after, id, s);
    }
    assert forall|x: int| 0 <= x < STD_ENTRIES implies after.contains(
        #[trigger] std_entry_text(x),
    ) by {
        assert(before.contains(std_entry_text(x)));
    }
    assert forall|x: int| 0 <= x < STD_ENTRIES implies std_entry(after, x) == std_entry(
        before,
        x,
    ) by {
        assert(before.contains(std_entry_text(x)));
        if x >= 1 {
            assert(before.contains(std_entry_text(x - 1)));
        }
    }
    assert(std_view(after).entries =~= std_view(before).entries);
}

} // verus!
