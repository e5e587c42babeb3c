use rss_frontend::parser::parse;
use rss_frontend::parser::Expr;
use rss_frontend::parser::Stmt;
use rss_frontend::resolver::gen_sym_table;
use rss_frontend::resolver::SymbolTable;
use rss_frontend::scanner::scan;

fn s(text: &str) -> String {
    text.to_string()
}

fn program(text: &str) -> Vec<Stmt> {
    parse(scan(text.chars().collect()).unwrap()).unwrap()
}

fn table_of(names: &[&str]) -> SymbolTable {
    let mut table = SymbolTable::new();
    for name in names {
        table.insert(name.to_string());
    }
    table
}

#[test]
fn empty_program_declares_nothing() {
    let table = gen_sym_table(&vec![]);
    assert_eq!(table.len(), 0);
    assert!(!table.contains(&s("f")));
    assert_eq!(table, SymbolTable::new());
}

#[test]
fn function_and_command_are_both_declared() {
    let table = gen_sym_table(&program("fun f() {\n}\ncmd g() {\n}\n"));
    assert_eq!(table.len(), 2);
    assert!(table.contains(&s("f")));
    assert!(table.contains(&s("g")));
    assert!(!table.contains(&s("h")));
    assert_eq!(table, table_of(&["f", "g"]));
}

#[test]
fn declaration_order_plays_no_part() {
    let one = gen_sym_table(&program("fun f() {\n}\ncmd g() {\n}\n"));
    let other = gen_sym_table(&program("cmd g() {\n}\nfun f() {\n}\n"));
    assert_eq!(one, other);
    assert_eq!(other, table_of(&["f", "g"]));
    assert_eq!(other, table_of(&["g", "f"]));
}

#[test]
fn resolving_twice_gives_equal_tables() {
    let stmts = program("fun a() {\n}\ncmd b() {\n}\nfun c(x, y) {\n  return 1\n}\n");
    let first = gen_sym_table(&stmts);
    let second = gen_sym_table(&stmts);
    assert_eq!(first, second);
    assert_eq!(first.len(), 3);
}

#[test]
fn name_declared_twice_is_held_once() {
    let table = gen_sym_table(&program("fun f() {\n}\ncmd f() {\n}\nfun f(x) {\n}\n"));
    assert_eq!(table.len(), 1);
    assert!(table.contains(&s("f")));
    assert_eq!(table, table_of(&["f"]));
}

#[test]
fn other_statements_declare_nothing() {
    let stmts = vec![
        Stmt::Return(Expr::LitNum(1)),
        Stmt::DefVar(s("x"), None),
        Stmt::CallCmd(s("echo"), vec![]),
        Stmt::DefFun(s("f"), vec![s("p")], vec![Stmt::DefVar(s("inner"), None)]),
    ];
    let table = gen_sym_table(&stmts);
    assert_eq!(table.len(), 1);
    assert!(table.contains(&s("f")));
    assert!(!table.contains(&s("x")));
    assert!(!table.contains(&s("echo")));
    assert!(!table.contains(&s("p")));
    assert!(!table.contains(&s("inner")));
}

#[test]
fn nested_definitions_are_not_at_the_top_level() {
    let stmts = vec![Stmt::DefFun(
        s("outer"),
        vec![],
        vec![Stmt::DefCmd(s("inner"), vec![], vec![])],
    )];
    let table = gen_sym_table(&stmts);
    assert_eq!(table, table_of(&["outer"]));
}

#[test]
fn insert_says_whether_the_name_was_new() {
    let mut table = SymbolTable::new();
    assert!(table.insert(s("a")));
    assert!(table.insert(s("b")));
    assert!(!table.insert(s("a")));
    assert_eq!(table.len(), 2);
    assert!(table.contains(&s("a")));
    assert!(table.contains(&s("b")));
}

#[test]
fn tables_with_other_names_differ() {
    assert_ne!(table_of(&["a", "b"]), table_of(&["a", "c"]));
    assert_ne!(table_of(&["a"]), table_of(&["a", "b"]));
    assert_ne!(table_of(&["a", "b"]), table_of(&["a"]));
    assert_ne!(table_of(&[]), table_of(&["a"]));
    assert_eq!(table_of(&["a", "b", "a"]), table_of(&["b", "a"]));
}
