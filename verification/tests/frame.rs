use evscript::diag::ErrorKind;
use evscript::ident::Interner;
use evscript::types::Type;
use evscript::vars::VariableTable;

fn unsigned(size: u8) -> Type {
    Type { signed: false, size }
}

#[test]
fn promote_takes_wider_size_and_any_sign() {
    let l = Type { signed: true, size: 1 };
    let r = Type { signed: false, size: 2 };
    assert_eq!(Type::promote(l, r), Type { signed: true, size: 2 });
}

#[test]
fn promote_is_commutative_on_examples() {
    let l = Type { signed: true, size: 1 };
    let r = Type { signed: false, size: 4 };
    assert_eq!(Type::promote(l, r), Type::promote(r, l));
}

#[test]
fn promote_of_a_type_with_itself_is_that_type() {
    let t = Type { signed: true, size: 3 };
    assert_eq!(Type::promote(t, t), t);
}

#[test]
fn type_text_has_sign_letter_and_bits() {
    assert_eq!(unsigned(1).text(), "u8");
    assert_eq!(Type { signed: true, size: 2 }.text(), "i16");
    assert_eq!(unsigned(255).text(), "u2040");
}

#[test]
fn fresh_table_allocates_at_consecutive_addresses() {
    let mut table = VariableTable::new();
    assert_eq!(table.allocate(unsigned(1)), Ok(0));
    assert_eq!(table.allocate(unsigned(2)), Ok(1));
    assert_eq!(table.allocate(unsigned(4)), Ok(3));
    assert_eq!(table.allocate(unsigned(1)), Ok(7));
    assert_eq!(table.used(), 8);
}

#[test]
fn allocations_of_256_bytes_in_total_succeed() {
    let mut table = VariableTable::new();
    for i in 0..128u16 {
        let addr = table.allocate(unsigned(2)).unwrap();
        assert_eq!(addr as u16, 2 * i);
        assert!(addr as u16 + 2 <= 256);
    }
    assert_eq!(table.used(), 256);
}

#[test]
fn allocation_beyond_256_bytes_fails() {
    let mut table = VariableTable::new();
    for _ in 0..256 {
        table.allocate(unsigned(1)).unwrap();
    }
    assert_eq!(table.allocate(unsigned(1)), Err(ErrorKind::OutOfVariableSpace));
}

#[test]
fn variable_that_does_not_fit_the_rest_fails() {
    let mut table = VariableTable::new();
    assert_eq!(table.allocate(unsigned(255)), Ok(0));
    assert_eq!(table.allocate(unsigned(2)), Err(ErrorKind::OutOfVariableSpace));
    assert_eq!(table.allocate(unsigned(1)), Ok(255));
    assert_eq!(table.allocate(unsigned(1)), Err(ErrorKind::OutOfVariableSpace));
}

#[test]
fn failed_allocation_changes_nothing() {
    let mut table = VariableTable::new();
    table.allocate(unsigned(200)).unwrap();
    assert!(table.allocate(unsigned(100)).is_err());
    assert_eq!(table.used(), 200);
    assert_eq!(table.allocate(unsigned(56)), Ok(200));
}

#[test]
fn lookup_after_alloc_and_bind_returns_address() {
    let mut idents = Interner::new();
    let x = idents.intern("x").unwrap();
    let y = idents.intern("y").unwrap();
    let mut table = VariableTable::new();
    table.allocate(unsigned(2)).unwrap();
    let a = table.allocate(unsigned(1)).unwrap();
    table.bind(a, x);
    let b = table.allocate(unsigned(2)).unwrap();
    table.bind(b, y);
    table.allocate(unsigned(1)).unwrap();
    assert_eq!(table.lookup(x), Ok(2));
    assert_eq!(table.lookup(y), Ok(3));
}

#[test]
fn lookup_finds_first_variable_of_a_name() {
    let mut idents = Interner::new();
    let x = idents.intern("x").unwrap();
    let mut table = VariableTable::new();
    let a = table.allocate(unsigned(1)).unwrap();
    table.bind(a, x);
    let b = table.allocate(unsigned(1)).unwrap();
    table.bind(b, x);
    assert_eq!(table.lookup(x), Ok(a));
}

#[test]
fn lookup_of_unknown_name_fails() {
    let mut idents = Interner::new();
    let x = idents.intern("x").unwrap();
    let mut table = VariableTable::new();
    table.allocate(unsigned(1)).unwrap();
    assert_eq!(table.lookup(x), Err(ErrorKind::UnknownVariable(x)));
}

#[test]
fn type_and_name_of_variable() {
    let mut idents = Interner::new();
    let x = idents.intern("x").unwrap();
    let mut table = VariableTable::new();
    let a = table.allocate(Type { signed: true, size: 2 }).unwrap();
    assert!(table.is_start(a));
    assert!(!table.is_start(a + 1));
    assert_eq!(table.type_of(a), Type { signed: true, size: 2 });
    assert_eq!(table.name_of(a), None);
    table.bind(a, x);
    assert_eq!(table.name_of(a), Some(x));
    assert_eq!(table.type_of(a), Type { signed: true, size: 2 });
}

#[test]
fn interner_hands_out_one_handle_per_string() {
    let mut idents = Interner::new();
    let a = idents.intern("alpha").unwrap();
    let b = idents.intern("beta").unwrap();
    let again = idents.intern("alpha").unwrap();
    assert_ne!(a, b);
    assert_eq!(a, again);
    assert_eq!(idents.len(), 2);
}

#[test]
fn interner_resolves_handles_to_strings() {
    let mut idents = Interner::new();
    let a = idents.intern("alpha").unwrap();
    let b = idents.intern("beta").unwrap();
    assert_eq!(idents.resolve(a), Some("alpha"));
    assert_eq!(idents.resolve(b), Some("beta"));
}

#[test]
fn interner_get_finds_only_interned_strings() {
    let mut idents = Interner::new();
    let a = idents.intern("alpha").unwrap();
    assert_eq!(idents.get("alpha"), Some(a));
    assert_eq!(idents.get("gamma"), None);
    assert_eq!(idents.len(), 1);
}

#[test]
fn handle_of_another_interner_does_not_resolve() {
    let mut one = Interner::new();
    one.intern("alpha").unwrap();
    let b = one.intern("beta").unwrap();
    let two = Interner::new();
    assert_eq!(two.resolve(b), None);
}
