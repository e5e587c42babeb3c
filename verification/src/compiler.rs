//! The front end as a whole: from a source text to its statements and the
//! names it declares.

use crate::grammar;
use crate::parser::parse;
use crate::parser::ParseError;
use crate::parser::ParseErrorView;
use crate::parser::Stmt;
use crate::parser::StmtView;
use crate::resolver::declared_name;
use crate::resolver::declared_names;
use crate::resolver::gen_sym_table;
use crate::resolver::SymbolTable;
use crate::scanner::identifier_text;
use crate::scanner::lemma_tokens_are_scanned;
use crate::scanner::scan;
use crate::scanner::scanned;
use crate::scanner::tokens_of;
use crate::scanner::ScanError;
use crate::scanner::TokenView;
use vstd::prelude::*;

verus! {

/// Why a source text is no program.
#[derive(Debug, PartialEq)]
pub enum CompileError {
    /// The text has no tokens.
    Scan(ScanError),
    /// The tokens are no program.
    Parse(ParseError),
}

/// A compile error as contracts see it.
pub enum CompileErrorView {
    Scan(ScanError),
    Parse(ParseErrorView),
}

impl View for CompileError {
    type V = CompileErrorView;

    open spec fn view(&self) -> CompileErrorView {
        match self {
            CompileError::Scan(e) => CompileErrorView::Scan(*e),
            CompileError::Parse(e) => CompileErrorView::Parse(e@),
        }
    }
}

/// The statements of a program and the names declared at its top level.
#[derive(Debug, PartialEq)]
pub struct Program {
    pub stmts: Vec<Stmt>,
    pub sym_table: SymbolTable,
}

/// The statements of the program that a source text writes: those of its
/// tokens. An error of the scanner comes before any of the parser.
pub open spec fn statements_of(src: Seq<char>) -> Result<Seq<StmtView>, CompileErrorView> {
    match tokens_of(src) {
        Ok(tokens) => match grammar::program(tokens) {
            Ok(stmts) => Ok(stmts),
            Err(e) => Err(CompileErrorView::Parse(e)),
        },
        Err(e) => Err(CompileErrorView::Scan(e)),
    }
}

/// Scans, parses and resolves a source text. The first error ends it, and
/// nothing else is returned then.
pub fn compile(src: Vec<char>) -> (r: Result<Program, CompileError>)
    ensures
        match r {
            Ok(program) => {
                &&& statements_of(src@) == Ok::<Seq<StmtView>, CompileErrorView>(
                    program.stmts.deep_view(),
                )
                &&& program.sym_table@ == declared_names(program.stmts.deep_view())
            },
            Err(e) => statements_of(src@) == Err::<Seq<StmtView>, CompileErrorView>(e@),
        },
{
    let tokens = match scan(src) {
        Ok(tokens) => tokens,
        Err(e) => {
            return Err(CompileError::Scan(e));
        },
    };
    let stmts = match parse(tokens) {
        Ok(stmts) => stmts,
        Err(e) => {
            return Err(CompileError::Parse(e));
        },
    };
    let sym_table = gen_sym_table(&stmts);
    Ok(Program { stmts, sym_table })
}

/// The name of a definition at the top level is the text of an identifier
/// among the tokens.
pub proof fn lemma_names_come_from_identifiers(tokens: Seq<TokenView>, p: int)
    requires
        0 <= p <= tokens.len(),
    ensures
        grammar::program_from(tokens, p) matches Ok(stmts) ==> forall|k: int|
            0 <= k < stmts.len() ==> (declared_name(#[trigger] stmts[k]) matches Some(name)
                ==> tokens.contains(TokenView::Identifier(name))),
    decreases tokens.len() - p,
{
    if p < tokens.len() {
        if tokens[p] == TokenView::Newline {
            lemma_names_come_from_identifiers(tokens, p + 1);
        } else {
            grammar::lemma_statement_advances(tokens, p);
            match grammar::statement(tokens, p) {
                Ok((stmt, q)) => {
                    lemma_names_come_from_identifiers(tokens, q);
                    match grammar::program_from(tokens, q) {
                        Ok(rest) => {
                            let stmts = seq![stmt] + rest;
                            assert forall|k: int| 0 <= k < stmts.len() implies (declared_name(
                                #[trigger] stmts[k],
                            ) matches Some(name) ==> tokens.contains(
                                TokenView::Identifier(name),
                            )) by {
                                if k > 0 {
                                    assert(stmts[k] == rest[k - 1]);
                                } else if declared_name(stmt) is Some {
                                    assert(tokens[p + 1] == TokenView::Identifier(
                                        declared_name(stmt)->Some_0,
                                    ));
                                }
                            }
                        },
                        Err(_) => {},
                    }
                },
                Err(_) => {},
            }
        }
    }
}

/// Every name that a source text declares is the text of an identifier: a
/// word, or a word with `!` behind it.
pub proof fn lemma_declared_names_are_identifiers(src: Seq<char>)
    ensures
        statements_of(src) matches Ok(stmts) ==> forall|name: Seq<char>|
            declared_names(stmts).contains(name) ==> identifier_text(name),
{
    lemma_tokens_are_scanned(src, 0);
    match tokens_of(src) {
        Ok(tokens) => {
            lemma_names_come_from_identifiers(tokens, 0);
            match grammar::program(tokens) {
                Ok(stmts) => {
                    assert forall|name: Seq<char>| declared_names(stmts).contains(
                        name,
                    ) implies identifier_text(name) by {
                        let k = choose|k: int|
                            0 <= k < stmts.len() && declared_name(#[trigger] stmts[k]) == Some(
                                name,
                            );
                        assert(tokens.contains(TokenView::Identifier(name)));
                        let j = choose|j: int|
                            0 <= j < tokens.len() && tokens[j] == TokenView::Identifier(name);
                        assert(scanned(tokens[j]));
                    }
                },
                Err(_) => {},
            }
        },
        Err(_) => {},
    }
}

} // verus!
