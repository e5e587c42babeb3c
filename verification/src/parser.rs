//! The parser: from tokens to the statements of a program.

use crate::grammar;
use crate::grammar::Failure;
use crate::grammar::Parsed;
use crate::scanner::token_views;
use crate::scanner::Token;
use crate::scanner::TokenView;
use crate::util::scan_iter::newlines_before;
use crate::util::scan_iter::Newline;
use crate::util::scan_iter::ScanIter;
use vstd::prelude::*;

verus! {

/// A statement of a program.
#[derive(Debug, PartialEq)]
pub enum Stmt {
    /// A variable, with the expression that gives its first value, if any.
    DefVar(String, Option<Expr>),
    /// A function: its name, its parameters and its body.
    DefFun(String, Vec<String>, Vec<Stmt>),
    /// A command: its name, its parameters and its body.
    DefCmd(String, Vec<String>, Vec<Stmt>),
    /// A call of a command with its arguments.
    CallCmd(String, Vec<Expr>),
    /// The value that a function or command returns.
    Return(Expr),
}

/// An expression.
#[derive(Debug, PartialEq)]
pub enum Expr {
    LitNum(isize),
    LitStr(String),
    Var(Var),
    /// A call of a function with its arguments.
    CallFun(String, Vec<Expr>),
}

/// A use of a variable. `hops` is meant for the number of scopes between
/// the use and the declaration; the parser always leaves it 0.
#[derive(Debug, PartialEq)]
pub struct Var {
    pub identifier: String,
    pub hops: usize,
}

/// A variable as contracts see it.
pub struct VarView {
    pub identifier: Seq<char>,
    pub hops: nat,
}

/// An expression as contracts see it.
pub enum ExprView {
    LitNum(int),
    LitStr(Seq<char>),
    Var(VarView),
    CallFun(Seq<char>, Seq<ExprView>),
}

/// A statement as contracts see it.
pub enum StmtView {
    DefVar(Seq<char>, Option<ExprView>),
    DefFun(Seq<char>, Seq<Seq<char>>, Seq<StmtView>),
    DefCmd(Seq<char>, Seq<Seq<char>>, Seq<StmtView>),
    CallCmd(Seq<char>, Seq<ExprView>),
    Return(ExprView),
}

impl View for Var {
    type V = VarView;

    open spec fn view(&self) -> VarView {
        VarView { identifier: self.identifier@, hops: self.hops as nat }
    }
}

impl Clone for Var {
    fn clone(&self) -> (copy: Var)
        ensures
            copy@ == self@,
    {
        Var { identifier: self.identifier.clone(), hops: self.hops }
    }
}

impl DeepView for Var {
    type V = VarView;

    open spec fn deep_view(&self) -> VarView {
        self@
    }
}

/// The view of an expression.
pub open spec fn expr_view(e: Expr) -> ExprView
    decreases e, 0int,
{
    match e {
        Expr::LitNum(n) => ExprView::LitNum(n as int),
        Expr::LitStr(text) => ExprView::LitStr(text@),
        Expr::Var(var) => ExprView::Var(var@),
        Expr::CallFun(name, args) => ExprView::CallFun(name@, first_expr_views(args, args.len() as int)),
    }
}

/// The views of the first `n` expressions.
pub open spec fn first_expr_views(exprs: Vec<Expr>, n: int) -> Seq<ExprView>
    decreases exprs, n,
{
    if 0 < n <= exprs.len() {
        first_expr_views(exprs, n - 1).push(expr_view(exprs[n - 1]))
    } else {
        Seq::empty()
    }
}

impl View for Expr {
    type V = ExprView;

    open spec fn view(&self) -> ExprView {
        expr_view(*self)
    }
}

impl DeepView for Expr {
    type V = ExprView;

    open spec fn deep_view(&self) -> ExprView {
        self@
    }
}

/// The view of a statement.
pub open spec fn stmt_view(s: Stmt) -> StmtView
    decreases s, 0int,
{
    match s {
        Stmt::DefVar(name, value) => StmtView::DefVar(name@, value.deep_view()),
        Stmt::DefFun(name, parameters, body) => StmtView::DefFun(
            name@,
            parameters.deep_view(),
            first_stmt_views(body, body.len() as int),
        ),
        Stmt::DefCmd(name, parameters, body) => StmtView::DefCmd(
            name@,
            parameters.deep_view(),
            first_stmt_views(body, body.len() as int),
        ),
        Stmt::CallCmd(name, args) => StmtView::CallCmd(name@, args.deep_view()),
        Stmt::Return(value) => StmtView::Return(value@),
    }
}

/// The views of the first `n` statements.
pub open spec fn first_stmt_views(stmts: Vec<Stmt>, n: int) -> Seq<StmtView>
    decreases stmts, n,
{
    if 0 < n <= stmts.len() {
        first_stmt_views(stmts, n - 1).push(stmt_view(stmts[n - 1]))
    } else {
        Seq::empty()
    }
}

impl View for Stmt {
    type V = StmtView;

    open spec fn view(&self) -> StmtView {
        stmt_view(*self)
    }
}

impl DeepView for Stmt {
    type V = StmtView;

    open spec fn deep_view(&self) -> StmtView {
        self@
    }
}

/// The first `n` views are the views of the first `n` expressions.
pub proof fn lemma_first_expr_views(exprs: Vec<Expr>, n: int)
    requires
        0 <= n <= exprs.len(),
    ensures
        first_expr_views(exprs, n) == exprs.deep_view().take(n),
    decreases n,
{
    if n > 0 {
        lemma_first_expr_views(exprs, n - 1);
    }
}

/// The first `n` views are the views of the first `n` statements.
pub proof fn lemma_first_stmt_views(stmts: Vec<Stmt>, n: int)
    requires
        0 <= n <= stmts.len(),
    ensures
        first_stmt_views(stmts, n) == stmts.deep_view().take(n),
    decreases n,
{
    if n > 0 {
        lemma_first_stmt_views(stmts, n - 1);
    }
}

/// The arguments in the view of a call are the views of its arguments.
pub proof fn lemma_expr_view(e: Expr)
    ensures
        e matches Expr::CallFun(name, args) ==> e@ == ExprView::CallFun(name@, args.deep_view()),
{
    match e {
        Expr::CallFun(name, args) => {
            lemma_first_expr_views(args, args.len() as int);
            assert(args.deep_view().take(args.len() as int) =~= args.deep_view());
        },
        _ => {},
    }
}

/// The body in the view of a definition is made of the views of its
/// statements.
pub proof fn lemma_stmt_view(s: Stmt)
    ensures
        s matches Stmt::DefFun(name, parameters, body) ==> s@ == StmtView::DefFun(
            name@,
            parameters.deep_view(),
            body.deep_view(),
        ),
        s matches Stmt::DefCmd(name, parameters, body) ==> s@ == StmtView::DefCmd(
            name@,
            parameters.deep_view(),
            body.deep_view(),
        ),
{
    match s {
        Stmt::DefFun(name, parameters, body) => {
            lemma_first_stmt_views(body, body.len() as int);
            assert(body.deep_view().take(body.len() as int) =~= body.deep_view());
        },
        Stmt::DefCmd(name, parameters, body) => {
            lemma_first_stmt_views(body, body.len() as int);
            assert(body.deep_view().take(body.len() as int) =~= body.deep_view());
        },
        _ => {},
    }
}

impl Var {
    /// A use of the variable `id` in the scope that declares it.
    pub fn new(id: String) -> (var: Self)
        ensures
            var.identifier == id,
            var.hops == 0,
    {
        Self { identifier: id, hops: 0 }
    }
}

/// Why a sequence of tokens is no program.
#[derive(Debug, PartialEq)]
pub enum ParseErrorKind {
    /// A statement cannot start with this token.
    UnexpectedToken(Token),
    /// The token `expected` had to stand where `got` stands.
    Expected { got: Token, expected: Token },
    /// An identifier had to stand where this token stands.
    ExpectedIdentifier(Token),
    /// A string literal had to stand where this token stands.
    ExpectedString(Token),
    /// `return` is followed by something else than a number or a string.
    WrongReturnValue,
    /// No expression starts where one had to stand.
    WrongExpression,
}

/// A parse error and the line it was found on.
#[derive(Debug, PartialEq)]
pub struct ParseError {
    pub line: usize,
    pub kind: ParseErrorKind,
}

/// The kind of a parse error as contracts see it.
pub enum ParseErrorKindView {
    UnexpectedToken(TokenView),
    Expected { got: TokenView, expected: TokenView },
    ExpectedIdentifier(TokenView),
    ExpectedString(TokenView),
    WrongReturnValue,
    WrongExpression,
}

/// A parse error as contracts see it.
pub struct ParseErrorView {
    pub line: usize,
    pub kind: ParseErrorKindView,
}

impl View for ParseErrorKind {
    type V = ParseErrorKindView;

    open spec fn view(&self) -> ParseErrorKindView {
        match self {
            ParseErrorKind::UnexpectedToken(got) => ParseErrorKindView::UnexpectedToken(got@),
            ParseErrorKind::Expected { got, expected } => ParseErrorKindView::Expected {
                got: got@,
                expected: expected@,
            },
            ParseErrorKind::ExpectedIdentifier(got) => ParseErrorKindView::ExpectedIdentifier(got@),
            ParseErrorKind::ExpectedString(got) => ParseErrorKindView::ExpectedString(got@),
            ParseErrorKind::WrongReturnValue => ParseErrorKindView::WrongReturnValue,
            ParseErrorKind::WrongExpression => ParseErrorKindView::WrongExpression,
        }
    }
}

impl View for ParseError {
    type V = ParseErrorView;

    open spec fn view(&self) -> ParseErrorView {
        ParseErrorView { line: self.line, kind: self.kind@ }
    }
}

/// The result `r` of a parsing step that left the cursor at `position` is
/// what the grammar says: the value and the index behind it, or the error
/// and the index of the token at which it was found.
pub open spec fn parsed<T: DeepView>(
    r: Result<T, ParseError>,
    position: int,
    expected: Parsed<T::V>,
) -> bool {
    match expected {
        Ok((value, end)) => r matches Ok(v) && v.deep_view() == value && position == end,
        Err(failure) => r matches Err(e) && e@ == failure.error && position == failure.at,
    }
}

/// `found` in front of the values of `rest`.
pub open spec fn after<T>(found: Seq<T>, rest: Parsed<Seq<T>>) -> Parsed<Seq<T>> {
    match rest {
        Ok((values, end)) => Ok((found + values, end)),
        Err(e) => Err(e),
    }
}

/// One more value found is one value less to come.
proof fn lemma_after_push<T>(found: Seq<T>, value: T, rest: Parsed<Seq<T>>)
    ensures
        after(found, grammar::prepend(value, rest)) == after(found.push(value), rest),
{
    match rest {
        Ok((values, end)) => {
            assert(found + (seq![value] + values) =~= found.push(value) + values);
        },
        Err(_) => {},
    }
}

/// A vector one longer has one more view at its end.
proof fn lemma_push_deep_view<T: DeepView>(before: Vec<T>, pushed: Vec<T>, value: T)
    requires
        pushed@ == before@.push(value),
    ensures
        pushed.deep_view() == before.deep_view().push(value.deep_view()),
{
}

/// `Newline` tokens are counted alike in the tokens and in their views.
proof fn lemma_newline_count(items: Seq<Token>, p: int)
    ensures
        grammar::newline_count(token_views(items), p) == newlines_before(items, p),
    decreases p,
{
    if 0 < p <= items.len() {
        lemma_newline_count(items, p - 1);
    }
}

impl ScanIter<Token> {
    /// The tokens as contracts see them.
    pub open spec fn views(&self) -> Seq<TokenView> {
        token_views(self.items())
    }

    /// What the cursor shows is what the grammar reads at its position.
    proof fn lemma_views(&self)
        requires
            self.wf(),
        ensures
            self.views().len() == self.items().len(),
            grammar::peek_at(self.views(), self.position()) == self.current()@,
            grammar::behind(self.views(), self.position()) == self.next_position(),
            grammar::newline_count(self.views(), self.position()) == newlines_before(
                self.items(),
                self.position(),
            ),
    {
        lemma_newline_count(self.items(), self.position());
    }

    /// Takes the next token if it is of the variant of `expected`. Where it
    /// is not, the cursor stays where it is.
    pub fn consume(&mut self, expected: Token) -> (r: Result<(), ParseError>)
        requires
            old(self).wf(),
        ensures
            final(self).wf(),
            final(self).items() == old(self).items(),
            parsed(
                r,
                final(self).position(),
                grammar::token(old(self).views(), old(self).position(), expected@),
            ),
            r is Err ==> final(self).position() == old(self).position(),
    {
        proof {
            self.lemma_views();
        }
        if self.match_item(expected.clone()) {
            Ok(())
        } else {
            let got = self.peek().clone();
            Err(ParseError { line: self.line(), kind: ParseErrorKind::Expected { got, expected } })
        }
    }

    /// Takes the next token if it is an identifier, and gives its name.
    /// Where it is none, the cursor stays where it is.
    pub fn consume_identifier(&mut self) -> (r: Result<String, ParseError>)
        requires
            old(self).wf(),
        ensures
            final(self).wf(),
            final(self).items() == old(self).items(),
            parsed(
                r,
                final(self).position(),
                grammar::identifier(old(self).views(), old(self).position()),
            ),
            r is Err ==> final(self).position() == old(self).position(),
    {
        proof {
            self.lemma_views();
        }
        match self.peek() {
            Token::Identifier(name) => {
                let id = name.clone();
                self.advance();
                Ok(id)
            },
            other => {
                let got = other.clone();
                Err(ParseError { line: self.line(), kind: ParseErrorKind::ExpectedIdentifier(got) })
            },
        }
    }

    /// Takes the next token if it is a string literal, and gives its text.
    /// Where it is none, the cursor stays where it is.
    pub fn consume_litstr(&mut self) -> (r: Result<String, ParseError>)
        requires
            old(self).wf(),
        ensures
            final(self).wf(),
            final(self).items() == old(self).items(),
            parsed(
                r,
                final(self).position(),
                grammar::string_literal(old(self).views(), old(self).position()),
            ),
            r is Err ==> final(self).position() == old(self).position(),
    {
        proof {
            self.lemma_views();
        }
        match self.peek() {
            Token::String(text) => {
                let id = text.clone();
                self.advance();
                Ok(id)
            },
            other => {
                let got = other.clone();
                Err(ParseError { line: self.line(), kind: ParseErrorKind::ExpectedString(got) })
            },
        }
    }
}

/// Turns the tokens of a source text into the statements of the program.
/// The first error ends the parse, and no statements are returned then.
pub fn parse(tokens: Vec<Token>) -> (r: Result<Vec<Stmt>, ParseError>)
    ensures
        match r {
            Ok(stmts) => grammar::program(tokens.deep_view()) == Ok::<
                Seq<StmtView>,
                ParseErrorView,
            >(stmts.deep_view()),
            Err(e) => grammar::program(tokens.deep_view()) == Err::<Seq<StmtView>, ParseErrorView>(
                e@,
            ),
        },
{
    let ghost views = tokens.deep_view();
    let mut cursor = ScanIter::new(tokens);
    let mut stmts: Vec<Stmt> = Vec::new();
    loop
        invariant
            views == tokens.deep_view(),
            cursor.wf(),
            cursor.views() == views,
            match grammar::program_from(views, cursor.position()) {
                Ok(rest) => grammar::program(views) == Ok::<Seq<StmtView>, ParseErrorView>(
                    stmts.deep_view() + rest,
                ),
                Err(e) => grammar::program(views) == Err::<Seq<StmtView>, ParseErrorView>(e),
            },
        decreases cursor.items().len() - cursor.position(),
    {
        let ghost entry = cursor.position();
        while !cursor.is_at_end() && cursor.peek().is_newline()
            invariant
                entry <= cursor.position(),
                cursor.wf(),
                cursor.views() == views,
                match grammar::program_from(views, cursor.position()) {
                    Ok(rest) => grammar::program(views) == Ok::<Seq<StmtView>, ParseErrorView>(
                        stmts.deep_view() + rest,
                    ),
                    Err(e) => grammar::program(views) == Err::<Seq<StmtView>, ParseErrorView>(e),
                },
            decreases cursor.items().len() - cursor.position(),
        {
            cursor.advance();
        }
        proof {
            grammar::lemma_statement_advances(views, cursor.position());
        }
        if cursor.is_at_end() {
            return Ok(stmts);
        }
        let ghost found = stmts;
        match parse_stmt(&mut cursor) {
            Ok(stmt) => {
                stmts.push(stmt);
                proof {
                    lemma_push_deep_view(found, stmts, stmt);
                    assert(forall|rest: Seq<StmtView>|
                        found.deep_view().push(stmt@) + rest =~= found.deep_view() + (seq![stmt@]
                            + rest));
                }
            },
            Err(e) => {
                return Err(e);
            },
        }
    }
}

/// Reads one statement of the top level.
fn parse_stmt(tokens: &mut ScanIter<Token>) -> (r: Result<Stmt, ParseError>)
    requires
        old(tokens).wf(),
    ensures
        final(tokens).wf(),
        final(tokens).items() == old(tokens).items(),
        parsed(
            r,
            final(tokens).position(),
            grammar::statement(old(tokens).views(), old(tokens).position()),
        ),
{
    proof {
        tokens.lemma_views();
    }
    if tokens.match_item(Token::Fun) {
        return stmt_def_fun(tokens);
    } else if tokens.match_item(Token::Cmd) {
        return stmt_def_cmd(tokens);
    } else if tokens.match_item(Token::Return) {
        return stmt_return(tokens);
    }
    let got = tokens.peek().clone();
    Err(ParseError { line: tokens.line(), kind: ParseErrorKind::UnexpectedToken(got) })
}

/// Reads a function definition whose `fun` has just been consumed.
fn stmt_def_fun(tokens: &mut ScanIter<Token>) -> (r: Result<Stmt, ParseError>)
    requires
        old(tokens).wf(),
    ensures
        final(tokens).wf(),
        final(tokens).items() == old(tokens).items(),
        parsed(
            r,
            final(tokens).position(),
            grammar::definition(old(tokens).views(), old(tokens).position(), true),
        ),
{
    let id = match tokens.consume_identifier() {
        Ok(id) => id,
        Err(e) => {
            return Err(e);
        },
    };
    match tokens.consume(Token::LeftParen) {
        Ok(_) => {},
        Err(e) => {
            return Err(e);
        },
    }
    let (parameters, body) = match fun_parameters_and_body(tokens) {
        Ok(found) => found,
        Err(e) => {
            return Err(e);
        },
    };
    let stmt = Stmt::DefFun(id, parameters, body);
    proof {
        lemma_stmt_view(stmt);
    }
    Ok(stmt)
}

/// Reads a command definition whose `cmd` has just been consumed.
fn stmt_def_cmd(tokens: &mut ScanIter<Token>) -> (r: Result<Stmt, ParseError>)
    requires
        old(tokens).wf(),
    ensures
        final(tokens).wf(),
        final(tokens).items() == old(tokens).items(),
        parsed(
            r,
            final(tokens).position(),
            grammar::definition(old(tokens).views(), old(tokens).position(), false),
        ),
{
    let id = match tokens.consume_identifier() {
        Ok(id) => id,
        Err(e) => {
            return Err(e);
        },
    };
    match tokens.consume(Token::LeftParen) {
        Ok(_) => {},
        Err(e) => {
            return Err(e);
        },
    }
    let (parameters, body) = match fun_parameters_and_body(tokens) {
        Ok(found) => found,
        Err(e) => {
            return Err(e);
        },
    };
    let stmt = Stmt::DefCmd(id, parameters, body);
    proof {
        lemma_stmt_view(stmt);
    }
    Ok(stmt)
}

/// Reads what follows a `return` that has just been consumed.
fn stmt_return(tokens: &mut ScanIter<Token>) -> (r: Result<Stmt, ParseError>)
    requires
        old(tokens).wf(),
    ensures
        final(tokens).wf(),
        final(tokens).items() == old(tokens).items(),
        parsed(
            r,
            final(tokens).position(),
            grammar::return_value(old(tokens).views(), old(tokens).position()),
        ),
{
    proof {
        tokens.lemma_views();
    }
    match tokens.peek() {
        Token::Number(n) => {
            let ret: isize = *n;
            tokens.advance();
            Ok(Stmt::Return(Expr::LitNum(ret)))
        },
        Token::String(s) => {
            let ret = s.clone();
            tokens.advance();
            Ok(Stmt::Return(Expr::LitStr(ret)))
        },
        _ => Err(ParseError { line: tokens.line(), kind: ParseErrorKind::WrongReturnValue }),
    }
}

/// Reads the parameters and the body of a definition whose `(` has just
/// been consumed.
fn fun_parameters_and_body(tokens: &mut ScanIter<Token>) -> (r: Result<
    (Vec<String>, Vec<Stmt>),
    ParseError,
>)
    requires
        old(tokens).wf(),
    ensures
        final(tokens).wf(),
        final(tokens).items() == old(tokens).items(),
        parsed(
            r,
            final(tokens).position(),
            grammar::params_and_body(old(tokens).views(), old(tokens).position()),
        ),
{
    let ghost views = tokens.views();
    let ghost begin = tokens.position();
    let mut parameters: Vec<String> = Vec::new();
    if !tokens.check_item(Token::RightParen) {
        loop
            invariant_except_break
                grammar::identifiers(views, begin) == after(
                    parameters.deep_view(),
                    grammar::identifiers(views, tokens.position()),
                ),
            invariant
                tokens.wf(),
                tokens.items() == old(tokens).items(),
                tokens.views() == views,
                views == old(tokens).views(),
                begin == old(tokens).position(),
                grammar::peek_at(views, begin) != TokenView::RightParen,
            ensures
                grammar::identifiers(views, begin) == Ok::<(Seq<Seq<char>>, int), Failure>(
                    (parameters.deep_view(), tokens.position()),
                ),
            decreases tokens.items().len() - tokens.position(),
        {
            let ghost found = parameters;
            let id = match tokens.consume_identifier() {
                Ok(id) => id,
                Err(e) => {
                    return Err(e);
                },
            };
            parameters.push(id);
            proof {
                lemma_push_deep_view(found, parameters, id);
                lemma_after_push(
                    found.deep_view(),
                    id@,
                    grammar::identifiers(views, tokens.position() + 1),
                );
                assert(found.deep_view() + seq![id@] =~= parameters.deep_view());
            }
            if !tokens.match_item(Token::Comma) {
                break;
            }
        }
    } else {
        assert(parameters.deep_view() =~= Seq::<Seq<char>>::empty());
    }
    match tokens.consume(Token::RightParen) {
        Ok(_) => {},
        Err(e) => {
            return Err(e);
        },
    }
    match tokens.consume(Token::LeftBrace) {
        Ok(_) => {},
        Err(e) => {
            return Err(e);
        },
    }
    let body = match block_statement(tokens) {
        Ok(body) => body,
        Err(e) => {
            return Err(e);
        },
    };
    Ok((parameters, body))
}

/// Reads the statements of a body whose `{` has just been consumed, and the
/// `}` behind them.
fn block_statement(tokens: &mut ScanIter<Token>) -> (r: Result<Vec<Stmt>, ParseError>)
    requires
        old(tokens).wf(),
    ensures
        final(tokens).wf(),
        final(tokens).items() == old(tokens).items(),
        parsed(
            r,
            final(tokens).position(),
            grammar::block(old(tokens).views(), old(tokens).position()),
        ),
{
    let ghost views = tokens.views();
    let ghost begin = tokens.position();
    let mut stmts: Vec<Stmt> = Vec::new();
    while !tokens.check_item(Token::RightBrace) && !tokens.is_at_end()
        invariant
            tokens.wf(),
            tokens.items() == old(tokens).items(),
            tokens.views() == views,
            views == old(tokens).views(),
            begin == old(tokens).position(),
            grammar::block(views, begin) == after(
                stmts.deep_view(),
                grammar::block(views, tokens.position()),
            ),
        decreases tokens.items().len() - tokens.position(),
    {
        proof {
            grammar::lemma_block_statement_advances(views, tokens.position());
        }
        if tokens.peek().is_newline() {
            tokens.advance();
            continue ;
        }
        let ghost found = stmts;
        match cmds(tokens) {
            Ok(stmt) => {
                stmts.push(stmt);
                proof {
                    lemma_push_deep_view(found, stmts, stmt);
                    lemma_after_push(
                        found.deep_view(),
                        stmt@,
                        grammar::block(views, tokens.position()),
                    );
                }
            },
            Err(e) => {
                return Err(e);
            },
        }
    }
    match tokens.consume(Token::RightBrace) {
        Ok(_) => Ok(stmts),
        Err(e) => Err(e),
    }
}

/// Reads one statement of a body.
fn cmds(tokens: &mut ScanIter<Token>) -> (r: Result<Stmt, ParseError>)
    requires
        old(tokens).wf(),
    ensures
        final(tokens).wf(),
        final(tokens).items() == old(tokens).items(),
        parsed(
            r,
            final(tokens).position(),
            grammar::block_statement(old(tokens).views(), old(tokens).position()),
        ),
{
    proof {
        tokens.lemma_views();
    }
    if tokens.match_item(Token::Let) {
        var_declaration(tokens)
    } else if tokens.match_item(Token::Return) {
        stmt_return(tokens)
    } else {
        call_cmd(tokens)
    }
}

/// Reads a variable declaration whose `let` has just been consumed.
fn var_declaration(tokens: &mut ScanIter<Token>) -> (r: Result<Stmt, ParseError>)
    requires
        old(tokens).wf(),
    ensures
        final(tokens).wf(),
        final(tokens).items() == old(tokens).items(),
        parsed(
            r,
            final(tokens).position(),
            grammar::var_decl(old(tokens).views(), old(tokens).position()),
        ),
{
    let name = match tokens.consume_identifier() {
        Ok(name) => name,
        Err(e) => {
            return Err(e);
        },
    };
    let initializer = if tokens.match_item(Token::Equal) {
        match expression(tokens) {
            Ok(value) => Some(value),
            Err(e) => {
                return Err(e);
            },
        }
    } else {
        None
    };
    Ok(Stmt::DefVar(name, initializer))
}

/// Reads the call of a command with its arguments, up to the end of the
/// line.
fn call_cmd(tokens: &mut ScanIter<Token>) -> (r: Result<Stmt, ParseError>)
    requires
        old(tokens).wf(),
    ensures
        final(tokens).wf(),
        final(tokens).items() == old(tokens).items(),
        parsed(
            r,
            final(tokens).position(),
            grammar::cmd_call(old(tokens).views(), old(tokens).position()),
        ),
{
    let ghost views = tokens.views();
    let id = match tokens.consume_identifier() {
        Ok(id) => id,
        Err(e) => {
            return Err(e);
        },
    };
    let ghost begin = tokens.position();
    let mut args: Vec<Expr> = Vec::new();
    while !tokens.check_item(Token::Newline)
        invariant
            tokens.wf(),
            tokens.items() == old(tokens).items(),
            tokens.views() == views,
            views == old(tokens).views(),
            grammar::identifier(views, old(tokens).position()) == Ok::<(Seq<char>, int), Failure>((id@, begin)),
            grammar::arguments(views, begin, true) == after(
                args.deep_view(),
                grammar::arguments(views, tokens.position(), true),
            ),
        decreases tokens.items().len() - tokens.position(),
    {
        let ghost found = args;
        let arg = if tokens.check_item(Token::String(String::new())) {
            match tokens.consume_litstr() {
                Ok(text) => Expr::LitStr(text),
                Err(e) => {
                    return Err(e);
                },
            }
        } else {
            match tokens.consume(Token::DollarSign) {
                Ok(_) => {},
                Err(e) => {
                    return Err(e);
                },
            }
            match tokens.consume_identifier() {
                Ok(name) => Expr::Var(Var::new(name)),
                Err(e) => {
                    return Err(e);
                },
            }
        };
        args.push(arg);
        proof {
            lemma_push_deep_view(found, args, arg);
            lemma_after_push(
                found.deep_view(),
                arg@,
                grammar::arguments(views, tokens.position(), true),
            );
        }
    }
    Ok(Stmt::CallCmd(id, args))
}

/// Reads an expression.
fn expression(tokens: &mut ScanIter<Token>) -> (r: Result<Expr, ParseError>)
    requires
        old(tokens).wf(),
    ensures
        final(tokens).wf(),
        final(tokens).items() == old(tokens).items(),
        parsed(
            r,
            final(tokens).position(),
            grammar::expr(old(tokens).views(), old(tokens).position()),
        ),
{
    proof {
        tokens.lemma_views();
    }
    match tokens.peek() {
        Token::Number(n) => {
            let ret: isize = *n;
            tokens.advance();
            return Ok(Expr::LitNum(ret));
        },
        Token::String(s) => {
            let ret = s.clone();
            tokens.advance();
            return Ok(Expr::LitStr(ret));
        },
        _ => {},
    }
    if tokens.match_item(Token::DollarSign) {
        if tokens.match_item(Token::LeftParen) {
            let res = match call_fun(tokens) {
                Ok(res) => res,
                Err(e) => {
                    return Err(e);
                },
            };
            match tokens.consume(Token::RightParen) {
                Ok(_) => {},
                Err(e) => {
                    return Err(e);
                },
            }
            return Ok(res);
        } else {
            return match tokens.consume_identifier() {
                Ok(name) => Ok(Expr::Var(Var::new(name))),
                Err(e) => Err(e),
            };
        }
    }
    Err(ParseError { line: tokens.line(), kind: ParseErrorKind::WrongExpression })
}

/// Reads the call of a function with its arguments.
fn call_fun(tokens: &mut ScanIter<Token>) -> (r: Result<Expr, ParseError>)
    requires
        old(tokens).wf(),
    ensures
        final(tokens).wf(),
        final(tokens).items() == old(tokens).items(),
        parsed(
            r,
            final(tokens).position(),
            grammar::fun_call(old(tokens).views(), old(tokens).position()),
        ),
{
    let ghost views = tokens.views();
    let id = match tokens.consume_identifier() {
        Ok(id) => id,
        Err(e) => {
            return Err(e);
        },
    };
    let ghost begin = tokens.position();
    let mut args: Vec<Expr> = Vec::new();
    while !tokens.check_item(Token::Newline)
        invariant_except_break
            grammar::arguments(views, begin, false) == after(
                args.deep_view(),
                grammar::arguments(views, tokens.position(), false),
            ),
        invariant
            tokens.wf(),
            tokens.items() == old(tokens).items(),
            tokens.views() == views,
            views == old(tokens).views(),
            grammar::identifier(views, old(tokens).position()) == Ok::<(Seq<char>, int), Failure>((id@, begin)),
        ensures
            grammar::arguments(views, begin, false) == Ok::<(Seq<ExprView>, int), Failure>(
                (args.deep_view(), tokens.position()),
            ),
        decreases tokens.items().len() - tokens.position(),
    {
        let ghost found = args;
        let arg = if tokens.check_item(Token::String(String::new())) {
            match tokens.consume_litstr() {
                Ok(text) => Expr::LitStr(text),
                Err(e) => {
                    return Err(e);
                },
            }
        } else if tokens.match_item(Token::DollarSign) {
            match tokens.consume_identifier() {
                Ok(name) => Expr::Var(Var::new(name)),
                Err(e) => {
                    return Err(e);
                },
            }
        } else {
            break ;
        };
        args.push(arg);
        proof {
            lemma_push_deep_view(found, args, arg);
            lemma_after_push(
                found.deep_view(),
                arg@,
                grammar::arguments(views, tokens.position(), false),
            );
        }
    }
    let call = Expr::CallFun(id, args);
    proof {
        lemma_expr_view(call);
    }
    Ok(call)
}

} // verus!
