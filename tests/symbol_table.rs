use hackassembler::symbol_table::SymbolTable;

#[test]
fn predefined_addresses() {
    let mut t = SymbolTable::new();
    assert_eq!(t.address_for("SCREEN"), 16384);
    assert_eq!(t.address_for("KBD"), 24576);
    assert_eq!(t.address_for("R3"), 3);
    assert_eq!(t.address_for("THAT"), 4);
    assert_eq!(t.lookup("ARG"), Some(2));
}

#[test]
fn variables_count_up_from_sixteen() {
    let mut t = SymbolTable::new();
    assert_eq!(t.lookup("a"), None);
    assert_eq!(t.address_for("a"), 16);
    assert_eq!(t.address_for("b"), 17);
    assert_eq!(t.address_for("a"), 16);
    assert_eq!(t.lookup("b"), Some(17));
    assert!(!t.is_full());
}

#[test]
fn labels_keep_their_first_address() {
    let mut t = SymbolTable::new();
    t.add_symbol("LOOP", 4);
    t.add_symbol("LOOP", 9);
    assert_eq!(t.address_for("LOOP"), 4);
    assert_eq!(t.address_for("v"), 16);
}

#[test]
fn predefined_names_win_over_labels() {
    let mut t = SymbolTable::new();
    t.add_symbol("SP", 12);
    assert_eq!(t.address_for("SP"), 0);
}
