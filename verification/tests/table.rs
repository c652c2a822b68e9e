use cov_env::table::{Change, EnvTable, VarError};

#[test]
fn new_table_holds_nothing() {
    let vars = EnvTable::new();
    assert_eq!(vars.var_os("RUSTC"), None);
    assert_eq!(vars.var_os(""), None);
    assert_eq!(vars.var("RUSTC"), Err(VarError::NotPresent));
}

#[test]
fn set_var_then_read() {
    let mut vars = EnvTable::new();
    vars.set_var("RUSTFLAGS", b"-C debuginfo=2");
    assert_eq!(vars.var_os("RUSTFLAGS"), Some(b"-C debuginfo=2".to_vec()));
    assert_eq!(vars.var("RUSTFLAGS"), Ok("-C debuginfo=2".to_string()));
    assert_eq!(vars.var_os("RUSTDOCFLAGS"), None);
}

#[test]
fn set_var_overwrites() {
    let mut vars = EnvTable::new();
    vars.set_var("CARGO", b"first");
    vars.set_var("RUSTC", b"other");
    vars.set_var("CARGO", b"second");
    assert_eq!(vars.var_os("CARGO"), Some(b"second".to_vec()));
    assert_eq!(vars.var_os("RUSTC"), Some(b"other".to_vec()));
    vars.remove_var("CARGO");
    assert_eq!(vars.var_os("CARGO"), None);
    assert_eq!(vars.var_os("RUSTC"), Some(b"other".to_vec()));
}

#[test]
fn names_are_told_apart_exactly() {
    let mut vars = EnvTable::new();
    vars.set_var("CARGO", b"a");
    vars.set_var("CARGO_INCREMENTAL", b"b");
    vars.set_var("cargo", b"c");
    assert_eq!(vars.var_os("CARGO"), Some(b"a".to_vec()));
    assert_eq!(vars.var_os("CARGO_INCREMENTAL"), Some(b"b".to_vec()));
    assert_eq!(vars.var_os("cargo"), Some(b"c".to_vec()));
    assert_eq!(vars.var_os("CARG"), None);
}

#[test]
fn remove_var_of_unset_changes_nothing() {
    let mut vars = EnvTable::new();
    vars.set_var("BROWSER", b"firefox");
    vars.remove_var("RUSTC");
    assert_eq!(vars.var_os("BROWSER"), Some(b"firefox".to_vec()));
    assert_eq!(vars.var_os("RUSTC"), None);
}

#[test]
fn remove_var_keeps_the_others() {
    let mut vars = EnvTable::new();
    vars.set_var("A", b"1");
    vars.set_var("B", b"2");
    vars.set_var("C", b"3");
    vars.remove_var("A");
    assert_eq!(vars.var_os("A"), None);
    assert_eq!(vars.var_os("B"), Some(b"2".to_vec()));
    assert_eq!(vars.var_os("C"), Some(b"3".to_vec()));
    vars.remove_var("C");
    assert_eq!(vars.var_os("B"), Some(b"2".to_vec()));
    assert_eq!(vars.var_os("C"), None);
}

#[test]
fn empty_value_is_set() {
    let mut vars = EnvTable::new();
    vars.set_var("RUSTC", b"");
    assert_eq!(vars.var_os("RUSTC"), Some(Vec::new()));
    assert_eq!(vars.var("RUSTC"), Ok(String::new()));
}

#[test]
fn var_decodes_utf8() {
    let mut vars = EnvTable::new();
    vars.set_var("FLAGS", &[0x2d, 0xc3, 0xa9, 0xe2, 0x82, 0xac]);
    assert_eq!(vars.var("FLAGS"), Ok("-\u{e9}\u{20ac}".to_string()));
}

#[test]
fn var_rejects_what_is_not_utf8() {
    let mut vars = EnvTable::new();
    vars.set_var("FLAGS", &[0x66, 0xff, 0x6f]);
    assert_eq!(vars.var("FLAGS"), Err(VarError::NotUnicode(vec![0x66, 0xff, 0x6f])));
    vars.set_var("CUT", &[0xe2, 0x82]);
    assert_eq!(vars.var("CUT"), Err(VarError::NotUnicode(vec![0xe2, 0x82])));
    vars.set_var("SURROGATE", &[0xed, 0xa0, 0x80]);
    assert_eq!(vars.var("SURROGATE"), Err(VarError::NotUnicode(vec![0xed, 0xa0, 0x80])));
    vars.set_var("OVERLONG", &[0xc0, 0xaf]);
    assert_eq!(vars.var("OVERLONG"), Err(VarError::NotUnicode(vec![0xc0, 0xaf])));
}

#[test]
fn apply_makes_the_change() {
    let mut vars = EnvTable::new();
    vars.apply(&Change::Assign("RUSTC".to_string(), b"clippy-driver".to_vec()));
    assert_eq!(vars.var_os("RUSTC"), Some(b"clippy-driver".to_vec()));
    vars.apply(&Change::Assign("RUSTC".to_string(), b"rustc".to_vec()));
    assert_eq!(vars.var_os("RUSTC"), Some(b"rustc".to_vec()));
    vars.apply(&Change::Unset("RUSTC".to_string()));
    assert_eq!(vars.var_os("RUSTC"), None);
    vars.apply(&Change::Unset("RUSTC".to_string()));
    assert_eq!(vars.var_os("RUSTC"), None);
}
