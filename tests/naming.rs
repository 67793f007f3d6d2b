use ledger::naming::{FreshNamer, append_decimal, default_ledger_server, default_sub_server, indent_of};

#[test]
fn fresh_names_start_with_the_base() {
    let mut n = FreshNamer::new("txn".to_string(), "_".to_string());
    assert_eq!(n.next(), Some("txn".to_string()));
    assert_eq!(n.next(), Some("txn_0".to_string()));
    assert_eq!(n.next(), Some("txn_1".to_string()));
    for _ in 0..9 {
        n.next();
    }
    assert_eq!(n.next(), Some("txn_11".to_string()));
}

#[test]
fn decimal_digits() {
    let mut s = String::from("n=");
    append_decimal(&mut s, 0);
    assert_eq!(s, "n=0");
    let mut s = String::new();
    append_decimal(&mut s, 18446744073709551615);
    assert_eq!(s, "18446744073709551615");
}

#[test]
fn indentation() {
    assert_eq!(indent_of(0), "");
    assert_eq!(indent_of(3), "   ");
}

#[test]
fn default_servers() {
    assert_eq!(default_sub_server(), "https://testnet.findora.org:8669");
    assert_eq!(default_ledger_server(), "https://testnet.findora.org:8668");
}
