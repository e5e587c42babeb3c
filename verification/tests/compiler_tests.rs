use rss_frontend::compiler::compile;
use rss_frontend::compiler::CompileError;
use rss_frontend::parser::Expr;
use rss_frontend::parser::ParseError;
use rss_frontend::parser::ParseErrorKind;
use rss_frontend::parser::Stmt;
use rss_frontend::parser::Var;
use rss_frontend::scanner::ScanError;
use rss_frontend::scanner::ScanErrorKind;
use rss_frontend::scanner::Token;

fn s(text: &str) -> String {
    text.to_string()
}

#[test]
fn whole_program_is_compiled() {
    let text = "// greets and counts\n\
                cmd greet(name) {\n\
                \x20 echo \"hi\" $name   // to the terminal\n\
                }\n\
                \n\
                fun count!(a, b) {\n\
                \x20 let total = $(sum $a $b)\n\
                \x20 return 0\n\
                }\n";
    let program = compile(text.chars().collect()).unwrap();
    assert_eq!(
        program.stmts,
        vec![
            Stmt::DefCmd(
                s("greet"),
                vec![s("name")],
                vec![Stmt::CallCmd(
                    s("echo"),
                    vec![
                        Expr::LitStr(s("hi")),
                        Expr::Var(Var { identifier: s("name"), hops: 0 }),
                    ],
                )],
            ),
            Stmt::DefFun(
                s("count!"),
                vec![s("a"), s("b")],
                vec![
                    Stmt::DefVar(
                        s("total"),
                        Some(Expr::CallFun(
                            s("sum"),
                            vec![
                                Expr::Var(Var { identifier: s("a"), hops: 0 }),
                                Expr::Var(Var { identifier: s("b"), hops: 0 }),
                            ],
                        )),
                    ),
                    Stmt::Return(Expr::LitNum(0)),
                ],
            ),
        ]
    );
    assert_eq!(program.sym_table.len(), 2);
    assert!(program.sym_table.contains(&s("greet")));
    assert!(program.sym_table.contains(&s("count!")));
    assert!(!program.sym_table.contains(&s("total")));
}

#[test]
fn empty_text_is_an_empty_program() {
    let program = compile(vec![]).unwrap();
    assert!(program.stmts.is_empty());
    assert_eq!(program.sym_table.len(), 0);
}

#[test]
fn text_ending_in_a_comment_is_compiled() {
    let program = compile("fun f() {\n}\n// the end".chars().collect()).unwrap();
    assert_eq!(program.stmts, vec![Stmt::DefFun(s("f"), vec![], vec![])]);
}

#[test]
fn scan_error_ends_the_compilation() {
    assert_eq!(
        compile("fun f() {\n  let x = 1 + 2\n}\n".chars().collect()),
        Err(CompileError::Scan(ScanError { line: 2, kind: ScanErrorKind::UnexpectedChar('+') }))
    );
}

#[test]
fn scan_error_comes_before_a_parse_error() {
    assert_eq!(
        compile("let\n\n\"open".chars().collect()),
        Err(CompileError::Scan(ScanError { line: 3, kind: ScanErrorKind::UnterminatedString }))
    );
}

#[test]
fn parse_error_ends_the_compilation() {
    assert_eq!(
        compile("fun f() {\n}\n\nfun add(a,) { return 1 }".chars().collect()),
        Err(CompileError::Parse(ParseError {
            line: 4,
            kind: ParseErrorKind::ExpectedIdentifier(Token::RightParen),
        }))
    );
}

#[test]
fn compiling_twice_gives_the_same() {
    let text = "fun f() {\n}\ncmd g() {\n}\n";
    assert_eq!(compile(text.chars().collect()), compile(text.chars().collect()));
}
