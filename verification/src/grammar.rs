//! The grammar of rss, as functions from a sequence of tokens and an index
//! in it to what stands there and the index behind it.
//!
//! ```text
//! program      := ( statement )*
//! statement    := fun_def | cmd_def | return_stmt
//! fun_def      := 'fun' IDENT '(' params ')' '{' block '}'
//! cmd_def      := 'cmd' IDENT '(' params ')' '{' block '}'
//! params       := ( IDENT (',' IDENT)* )?
//! block        := ( var_decl | return_stmt | cmd_call | NEWLINE )*
//! var_decl     := 'let' IDENT ( '=' expr )?
//! return_stmt  := 'return' ( NUMBER | STRING )
//! cmd_call     := IDENT ( STRING | '$' IDENT )*      -- until NEWLINE
//! expr         := NUMBER | STRING
//!              |  '$' '(' fun_call ')'
//!              |  '$' IDENT
//! fun_call     := IDENT ( STRING | '$' IDENT )*
//! ```

use crate::parser::ExprView;
use crate::parser::ParseErrorKindView;
use crate::parser::ParseErrorView;
use crate::parser::StmtView;
use crate::parser::VarView;
use crate::scanner::TokenView;
use crate::util::scan_iter::line_number;
use vstd::prelude::*;

verus! {

/// Why nothing stands where something had to, and the index of the token at
/// which that was found.
pub struct Failure {
    pub error: ParseErrorView,
    pub at: int,
}

/// What stands at an index, with the index behind it, or why nothing does.
pub type Parsed<T> = Result<(T, int), Failure>;

/// The token at index `p`, or `Eof` outside the tokens.
pub open spec fn peek_at(tokens: Seq<TokenView>, p: int) -> TokenView {
    if 0 <= p < tokens.len() {
        tokens[p]
    } else {
        TokenView::Eof
    }
}

/// The index behind `p`; behind the last token there is none.
pub open spec fn behind(tokens: Seq<TokenView>, p: int) -> int {
    if p < tokens.len() {
        p + 1
    } else {
        p
    }
}

/// How many of the first `p` tokens are `Newline`.
pub open spec fn newline_count(tokens: Seq<TokenView>, p: int) -> nat
    decreases p,
{
    if p <= 0 || p > tokens.len() {
        0
    } else if tokens[p - 1] == TokenView::Newline {
        newline_count(tokens, p - 1) + 1
    } else {
        newline_count(tokens, p - 1)
    }
}

/// An error of the given kind found at index `p`: it carries the number of
/// the line that the token at `p` is on.
pub open spec fn error_at(tokens: Seq<TokenView>, p: int, kind: ParseErrorKindView) -> Failure {
    Failure { error: ParseErrorView { line: line_number(newline_count(tokens, p)), kind }, at: p }
}

/// `value` in front of the values of `rest`.
pub open spec fn prepend<T>(value: T, rest: Parsed<Seq<T>>) -> Parsed<Seq<T>> {
    match rest {
        Ok((values, end)) => Ok((seq![value] + values, end)),
        Err(e) => Err(e),
    }
}

/// A token of the same variant as `expected`.
pub open spec fn token(tokens: Seq<TokenView>, p: int, expected: TokenView) -> Parsed<()> {
    let got = peek_at(tokens, p);
    if got.kind() == expected.kind() {
        Ok(((), behind(tokens, p)))
    } else {
        Err(error_at(tokens, p, ParseErrorKindView::Expected { got, expected }))
    }
}

/// An identifier: its name.
pub open spec fn identifier(tokens: Seq<TokenView>, p: int) -> Parsed<Seq<char>> {
    match peek_at(tokens, p) {
        TokenView::Identifier(name) => Ok((name, p + 1)),
        got => Err(error_at(tokens, p, ParseErrorKindView::ExpectedIdentifier(got))),
    }
}

/// A string literal: its text.
pub open spec fn string_literal(tokens: Seq<TokenView>, p: int) -> Parsed<Seq<char>> {
    match peek_at(tokens, p) {
        TokenView::String(text) => Ok((text, p + 1)),
        got => Err(error_at(tokens, p, ParseErrorKindView::ExpectedString(got))),
    }
}

/// The arguments of a call: string literals and `$` identifiers, one after
/// the other up to a `Newline`, which stays. Where something else stands,
/// the arguments of a command (`strict`) are in error, and those of a
/// function end.
pub open spec fn arguments(tokens: Seq<TokenView>, p: int, strict: bool) -> Parsed<Seq<ExprView>>
    decreases tokens.len() - p,
{
    match peek_at(tokens, p) {
        TokenView::Newline => Ok((Seq::empty(), p)),
        TokenView::String(text) => prepend(ExprView::LitStr(text), arguments(tokens, p + 1, strict)),
        TokenView::DollarSign => match identifier(tokens, p + 1) {
            Ok((name, q)) => prepend(
                ExprView::Var(VarView { identifier: name, hops: 0 }),
                arguments(tokens, q, strict),
            ),
            Err(e) => Err(e),
        },
        got => if strict {
            Err(
                error_at(
                    tokens,
                    p,
                    ParseErrorKindView::Expected { got, expected: TokenView::DollarSign },
                ),
            )
        } else {
            Ok((Seq::empty(), p))
        },
    }
}

/// `fun_call`: a name and its arguments.
pub open spec fn fun_call(tokens: Seq<TokenView>, p: int) -> Parsed<ExprView> {
    match identifier(tokens, p) {
        Ok((name, q)) => match arguments(tokens, q, false) {
            Ok((args, end)) => Ok((ExprView::CallFun(name, args), end)),
            Err(e) => Err(e),
        },
        Err(e) => Err(e),
    }
}

/// `expr`: a number, a string, a call of a function between `$(` and `)`, or
/// the use of a variable, which is `$` and its name.
pub open spec fn expr(tokens: Seq<TokenView>, p: int) -> Parsed<ExprView> {
    match peek_at(tokens, p) {
        TokenView::Number(n) => Ok((ExprView::LitNum(n), p + 1)),
        TokenView::String(text) => Ok((ExprView::LitStr(text), p + 1)),
        TokenView::DollarSign => if peek_at(tokens, p + 1) == TokenView::LeftParen {
            match fun_call(tokens, p + 2) {
                Ok((call, q)) => match token(tokens, q, TokenView::RightParen) {
                    Ok((_, end)) => Ok((call, end)),
                    Err(e) => Err(e),
                },
                Err(e) => Err(e),
            }
        } else {
            match identifier(tokens, p + 1) {
                Ok((name, end)) => Ok((ExprView::Var(VarView { identifier: name, hops: 0 }), end)),
                Err(e) => Err(e),
            }
        },
        _ => Err(error_at(tokens, p, ParseErrorKindView::WrongExpression)),
    }
}

/// What follows the `return` of a `return_stmt`: a number or a string.
pub open spec fn return_value(tokens: Seq<TokenView>, p: int) -> Parsed<StmtView> {
    match peek_at(tokens, p) {
        TokenView::Number(n) => Ok((StmtView::Return(ExprView::LitNum(n)), p + 1)),
        TokenView::String(text) => Ok((StmtView::Return(ExprView::LitStr(text)), p + 1)),
        _ => Err(error_at(tokens, p, ParseErrorKindView::WrongReturnValue)),
    }
}

/// What follows the `let` of a `var_decl`.
pub open spec fn var_decl(tokens: Seq<TokenView>, p: int) -> Parsed<StmtView> {
    match identifier(tokens, p) {
        Ok((name, q)) => if peek_at(tokens, q) == TokenView::Equal {
            match expr(tokens, q + 1) {
                Ok((value, end)) => Ok((StmtView::DefVar(name, Some(value)), end)),
                Err(e) => Err(e),
            }
        } else {
            Ok((StmtView::DefVar(name, None), q))
        },
        Err(e) => Err(e),
    }
}

/// `cmd_call`: a name and its arguments up to the end of the line.
pub open spec fn cmd_call(tokens: Seq<TokenView>, p: int) -> Parsed<StmtView> {
    match identifier(tokens, p) {
        Ok((name, q)) => match arguments(tokens, q, true) {
            Ok((args, end)) => Ok((StmtView::CallCmd(name, args), end)),
            Err(e) => Err(e),
        },
        Err(e) => Err(e),
    }
}

/// One statement of a block.
pub open spec fn block_statement(tokens: Seq<TokenView>, p: int) -> Parsed<StmtView> {
    match peek_at(tokens, p) {
        TokenView::Let => var_decl(tokens, p + 1),
        TokenView::Return => return_value(tokens, p + 1),
        _ => cmd_call(tokens, p),
    }
}

/// `block` and the `}` behind it: the statements up to the brace, with the
/// `Newline` tokens between them left out.
pub open spec fn block(tokens: Seq<TokenView>, p: int) -> Parsed<Seq<StmtView>>
    decreases tokens.len() - p,
{
    if !(0 <= p < tokens.len()) || tokens[p] == TokenView::RightBrace {
        match token(tokens, p, TokenView::RightBrace) {
            Ok((_, end)) => Ok((Seq::empty(), end)),
            Err(e) => Err(e),
        }
    } else if tokens[p] == TokenView::Newline {
        block(tokens, p + 1)
    } else {
        match block_statement(tokens, p) {
            Ok((stmt, q)) => {
                proof {
                    lemma_block_statement_advances(tokens, p);
                }
                prepend(stmt, block(tokens, q))
            },
            Err(e) => Err(e),
        }
    }
}

/// One identifier, and after each comma one more.
pub open spec fn identifiers(tokens: Seq<TokenView>, p: int) -> Parsed<Seq<Seq<char>>>
    decreases tokens.len() - p,
{
    match identifier(tokens, p) {
        Ok((name, q)) => if peek_at(tokens, q) == TokenView::Comma {
            prepend(name, identifiers(tokens, q + 1))
        } else {
            Ok((seq![name], q))
        },
        Err(e) => Err(e),
    }
}

/// `params`: nothing in front of a `)`, identifiers between commas
/// otherwise.
pub open spec fn params(tokens: Seq<TokenView>, p: int) -> Parsed<Seq<Seq<char>>> {
    if peek_at(tokens, p) == TokenView::RightParen {
        Ok((Seq::empty(), p))
    } else {
        identifiers(tokens, p)
    }
}

/// What follows the `(` of a definition: `params ')' '{' block '}'`.
pub open spec fn params_and_body(tokens: Seq<TokenView>, p: int) -> Parsed<
    (Seq<Seq<char>>, Seq<StmtView>),
> {
    match params(tokens, p) {
        Ok((parameters, q)) => match token(tokens, q, TokenView::RightParen) {
            Ok((_, r)) => match token(tokens, r, TokenView::LeftBrace) {
                Ok((_, t)) => match block(tokens, t) {
                    Ok((body, end)) => Ok(((parameters, body), end)),
                    Err(e) => Err(e),
                },
                Err(e) => Err(e),
            },
            Err(e) => Err(e),
        },
        Err(e) => Err(e),
    }
}

/// What follows the `fun` or `cmd` of a definition.
pub open spec fn definition(tokens: Seq<TokenView>, p: int, function: bool) -> Parsed<StmtView> {
    match identifier(tokens, p) {
        Ok((name, q)) => match token(tokens, q, TokenView::LeftParen) {
            Ok((_, r)) => match params_and_body(tokens, r) {
                Ok(((parameters, body), end)) => Ok(
                    (
                        if function {
                            StmtView::DefFun(name, parameters, body)
                        } else {
                            StmtView::DefCmd(name, parameters, body)
                        },
                        end,
                    ),
                ),
                Err(e) => Err(e),
            },
            Err(e) => Err(e),
        },
        Err(e) => Err(e),
    }
}

/// `statement`: a definition or a `return_stmt`.
pub open spec fn statement(tokens: Seq<TokenView>, p: int) -> Parsed<StmtView> {
    match peek_at(tokens, p) {
        TokenView::Fun => definition(tokens, p + 1, true),
        TokenView::Cmd => definition(tokens, p + 1, false),
        TokenView::Return => return_value(tokens, p + 1),
        got => Err(error_at(tokens, p, ParseErrorKindView::UnexpectedToken(got))),
    }
}

/// The statements from index `p` to the end of the tokens, with the
/// `Newline` tokens between them left out. The first error ends it.
pub open spec fn program_from(tokens: Seq<TokenView>, p: int) -> Result<
    Seq<StmtView>,
    ParseErrorView,
>
    decreases tokens.len() - p,
{
    if !(0 <= p < tokens.len()) {
        Ok(Seq::empty())
    } else if tokens[p] == TokenView::Newline {
        program_from(tokens, p + 1)
    } else {
        match statement(tokens, p) {
            Ok((stmt, q)) => {
                proof {
                    lemma_statement_advances(tokens, p);
                }
                match program_from(tokens, q) {
                    Ok(rest) => Ok(seq![stmt] + rest),
                    Err(e) => Err(e),
                }
            },
            Err(failure) => Err(failure.error),
        }
    }
}

/// `program`: the statements of a whole sequence of tokens.
pub open spec fn program(tokens: Seq<TokenView>) -> Result<Seq<StmtView>, ParseErrorView> {
    program_from(tokens, 0)
}

/// Arguments end at or behind the index they start at, and inside the
/// tokens.
pub proof fn lemma_arguments_bounds(tokens: Seq<TokenView>, p: int, strict: bool)
    requires
        0 <= p <= tokens.len(),
    ensures
        arguments(tokens, p, strict) matches Ok(found) ==> p <= found.1 <= tokens.len(),
    decreases tokens.len() - p,
{
    match peek_at(tokens, p) {
        TokenView::String(_) => {
            lemma_arguments_bounds(tokens, p + 1, strict);
        },
        TokenView::DollarSign => {
            if identifier(tokens, p + 1) is Ok {
                lemma_arguments_bounds(tokens, p + 2, strict);
            }
        },
        _ => {},
    }
}

/// An expression takes at least one token and none from behind the end.
pub proof fn lemma_expr_advances(tokens: Seq<TokenView>, p: int)
    requires
        0 <= p <= tokens.len(),
    ensures
        expr(tokens, p) matches Ok(found) ==> p < found.1 <= tokens.len(),
{
    if p + 3 <= tokens.len() {
        lemma_arguments_bounds(tokens, p + 3, false);
    }
}

/// A statement of a block takes at least one token and none from behind
/// the end.
pub proof fn lemma_block_statement_advances(tokens: Seq<TokenView>, p: int)
    requires
        0 <= p <= tokens.len(),
    ensures
        block_statement(tokens, p) matches Ok(found) ==> p < found.1 <= tokens.len(),
{
    if p + 1 <= tokens.len() {
        lemma_arguments_bounds(tokens, p + 1, true);
    }
    if p + 3 <= tokens.len() {
        lemma_expr_advances(tokens, p + 3);
    }
}

/// A block takes at least its closing brace and no token from behind the
/// end.
pub proof fn lemma_block_advances(tokens: Seq<TokenView>, p: int)
    requires
        0 <= p <= tokens.len(),
    ensures
        block(tokens, p) matches Ok(found) ==> p < found.1 <= tokens.len(),
    decreases tokens.len() - p,
{
    if p < tokens.len() && tokens[p] != TokenView::RightBrace {
        if tokens[p] == TokenView::Newline {
            lemma_block_advances(tokens, p + 1);
        } else {
            lemma_block_statement_advances(tokens, p);
            match block_statement(tokens, p) {
                Ok((_, q)) => {
                    lemma_block_advances(tokens, q);
                },
                Err(_) => {},
            }
        }
    }
}

/// Parameters end at or behind the index they start at, and inside the
/// tokens.
pub proof fn lemma_params_bounds(tokens: Seq<TokenView>, p: int)
    requires
        0 <= p <= tokens.len(),
    ensures
        params(tokens, p) matches Ok(found) ==> p <= found.1 <= tokens.len(),
        identifiers(tokens, p) matches Ok(found) ==> p < found.1 <= tokens.len(),
    decreases tokens.len() - p,
{
    if identifier(tokens, p) is Ok && peek_at(tokens, p + 1) == TokenView::Comma {
        lemma_params_bounds(tokens, p + 2);
    }
}

/// A statement takes at least one token and none from behind the end.
pub proof fn lemma_statement_advances(tokens: Seq<TokenView>, p: int)
    requires
        0 <= p <= tokens.len(),
    ensures
        statement(tokens, p) matches Ok(found) ==> p < found.1 <= tokens.len(),
{
    if p + 3 <= tokens.len() {
        lemma_params_bounds(tokens, p + 3);
        match params(tokens, p + 3) {
            Ok((_, q)) => {
                if q + 2 <= tokens.len() {
                    lemma_block_advances(tokens, q + 2);
                }
            },
            Err(_) => {},
        }
    }
}

/// Whether every use of a variable in the expression has 0 hops.
pub open spec fn expr_without_hops(e: ExprView) -> bool
    decreases e,
{
    match e {
        ExprView::Var(var) => var.hops == 0,
        ExprView::CallFun(_, args) => forall|i: int|
            0 <= i < args.len() ==> expr_without_hops(#[trigger] args[i]),
        _ => true,
    }
}

/// Whether every expression of the sequence is without hops.
pub open spec fn exprs_without_hops(exprs: Seq<ExprView>) -> bool {
    forall|i: int| 0 <= i < exprs.len() ==> expr_without_hops(#[trigger] exprs[i])
}

/// Whether every use of a variable in the statement has 0 hops.
pub open spec fn stmt_without_hops(s: StmtView) -> bool
    decreases s,
{
    match s {
        StmtView::DefVar(_, Some(value)) => expr_without_hops(value),
        StmtView::DefVar(_, None) => true,
        StmtView::DefFun(_, _, body) => forall|i: int|
            0 <= i < body.len() ==> stmt_without_hops(#[trigger] body[i]),
        StmtView::DefCmd(_, _, body) => forall|i: int|
            0 <= i < body.len() ==> stmt_without_hops(#[trigger] body[i]),
        StmtView::CallCmd(_, args) => exprs_without_hops(args),
        StmtView::Return(value) => expr_without_hops(value),
    }
}

/// Whether every statement of the sequence is without hops.
pub open spec fn stmts_without_hops(stmts: Seq<StmtView>) -> bool {
    forall|i: int| 0 <= i < stmts.len() ==> stmt_without_hops(#[trigger] stmts[i])
}

/// The arguments of a call are without hops.
pub proof fn lemma_arguments_without_hops(tokens: Seq<TokenView>, p: int, strict: bool)
    ensures
        arguments(tokens, p, strict) matches Ok(found) ==> exprs_without_hops(found.0),
    decreases tokens.len() - p,
{
    match peek_at(tokens, p) {
        TokenView::String(text) => {
            lemma_arguments_without_hops(tokens, p + 1, strict);
            lemma_prepend_without_hops(
                ExprView::LitStr(text),
                arguments(tokens, p + 1, strict),
            );
        },
        TokenView::DollarSign => {
            match identifier(tokens, p + 1) {
                Ok((name, q)) => {
                    lemma_arguments_without_hops(tokens, q, strict);
                    lemma_prepend_without_hops(
                        ExprView::Var(VarView { identifier: name, hops: 0 }),
                        arguments(tokens, q, strict),
                    );
                },
                Err(_) => {},
            }
        },
        _ => {},
    }
}

/// One more expression without hops in front leaves all without hops.
proof fn lemma_prepend_without_hops(value: ExprView, rest: Parsed<Seq<ExprView>>)
    requires
        expr_without_hops(value),
        rest matches Ok(found) ==> exprs_without_hops(found.0),
    ensures
        prepend(value, rest) matches Ok(found) ==> exprs_without_hops(found.0),
{
    match rest {
        Ok((values, _)) => {
            let all = seq![value] + values;
            assert forall|i: int| 0 <= i < all.len() implies expr_without_hops(
                #[trigger] all[i],
            ) by {
                if i > 0 {
                    assert(all[i] == values[i - 1]);
                }
            }
        },
        Err(_) => {},
    }
}

/// An expression is without hops.
pub proof fn lemma_expr_without_hops(tokens: Seq<TokenView>, p: int)
    ensures
        expr(tokens, p) matches Ok(found) ==> expr_without_hops(found.0),
{
    lemma_arguments_without_hops(tokens, p + 3, false);
}

/// A statement of a block is without hops.
pub proof fn lemma_block_statement_without_hops(tokens: Seq<TokenView>, p: int)
    ensures
        block_statement(tokens, p) matches Ok(found) ==> stmt_without_hops(found.0),
{
    lemma_arguments_without_hops(tokens, p + 1, true);
    lemma_expr_without_hops(tokens, p + 3);
}

/// The statements of a block are without hops.
pub proof fn lemma_block_without_hops(tokens: Seq<TokenView>, p: int)
    requires
        0 <= p <= tokens.len(),
    ensures
        block(tokens, p) matches Ok(found) ==> stmts_without_hops(found.0),
    decreases tokens.len() - p,
{
    if p < tokens.len() && tokens[p] != TokenView::RightBrace {
        if tokens[p] == TokenView::Newline {
            lemma_block_without_hops(tokens, p + 1);
        } else {
            lemma_block_statement_advances(tokens, p);
            lemma_block_statement_without_hops(tokens, p);
            match block_statement(tokens, p) {
                Ok((stmt, q)) => {
                    lemma_block_without_hops(tokens, q);
                    match block(tokens, q) {
                        Ok((rest, _)) => {
                            let all = seq![stmt] + rest;
                            assert forall|i: int| 0 <= i < all.len() implies stmt_without_hops(
                                #[trigger] all[i],
                            ) by {
                                if i > 0 {
                                    assert(all[i] == rest[i - 1]);
                                }
                            }
                        },
                        Err(_) => {},
                    }
                },
                Err(_) => {},
            }
        }
    }
}

/// The parser resolves no variable: in every statement of a program, every
/// use of a variable has 0 hops.
pub proof fn lemma_program_without_hops(tokens: Seq<TokenView>, p: int)
    requires
        0 <= p <= tokens.len(),
    ensures
        program_from(tokens, p) matches Ok(stmts) ==> stmts_without_hops(stmts),
    decreases tokens.len() - p,
{
    if p < tokens.len() {
        if tokens[p] == TokenView::Newline {
            lemma_program_without_hops(tokens, p + 1);
        } else {
            lemma_statement_advances(tokens, p);
            match statement(tokens, p) {
                Ok((stmt, q)) => {
                    if p + 3 <= tokens.len() {
                        lemma_params_bounds(tokens, p + 3);
                        match params(tokens, p + 3) {
                            Ok((_, r)) => {
                                if r + 2 <= tokens.len() {
                                    lemma_block_without_hops(tokens, r + 2);
                                }
                            },
                            Err(_) => {},
                        }
                    }
                    lemma_program_without_hops(tokens, q);
                    match program_from(tokens, q) {
                        Ok(rest) => {
                            let all = seq![stmt] + rest;
                            assert forall|i: int| 0 <= i < all.len() implies stmt_without_hops(
                                #[trigger] all[i],
                            ) by {
                                if i > 0 {
                                    assert(all[i] == rest[i - 1]);
                                }
                            }
                        },
                        Err(_) => {},
                    }
                },
                Err(_) => {},
            }
        }
    }
}

} // verus!
