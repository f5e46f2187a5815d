use vstd::prelude::*;

use crate::ast::{
    exprs_view, idents_view, lemma_exprs_view_push, lemma_stmts_view_push, stmts_view, Block,
    BlockV, Call, Expression, ExprV, Function, If, Infix, InfixOperation, LitV, Literal, Prefix,
    PrefixOperation, StmtV, Statement,
};
use crate::token::{
    operation_s, precedence_s, toks_view, Identifier, TokenType, TokenV,
};

verus! {

/// A parse error. Parsing stops at the first one; there is no
/// recovery. `token: None` means the input ended where a token was
/// required.
#[derive(Debug, PartialEq)]
pub enum ParseError {
    /// A token that no expression or statement form begins with.
    UnexpectedToken { token: Option<TokenType> },
    /// An identifier was required, in a `let` or a parameter list.
    ExpectedIdentifier { token: Option<TokenType> },
    /// A closing parenthesis or brace was required.
    ExpectedClose { token: Option<TokenType> },
}

/// The mathematical image of a parse error.
pub enum ParseErrV {
    UnexpectedToken { token: Option<TokenV> },
    ExpectedIdentifier { token: Option<TokenV> },
    ExpectedClose { token: Option<TokenV> },
}

/// Image of an optional token.
pub open spec fn opt_tok_view(t: Option<TokenType>) -> Option<TokenV> {
    match t {
        Some(tok) => Some(tok@),
        None => None,
    }
}

impl View for ParseError {
    type V = ParseErrV;

    open spec fn view(&self) -> ParseErrV {
        match self {
            ParseError::UnexpectedToken { token } => ParseErrV::UnexpectedToken {
                token: opt_tok_view(*token),
            },
            ParseError::ExpectedIdentifier { token } => ParseErrV::ExpectedIdentifier {
                token: opt_tok_view(*token),
            },
            ParseError::ExpectedClose { token } => ParseErrV::ExpectedClose {
                token: opt_tok_view(*token),
            },
        }
    }
}

/// The message text of a parse error.
pub open spec fn parse_err_chars(e: ParseErrV) -> Seq<char> {
    match e {
        ParseErrV::UnexpectedToken { token } => match token {
            Some(_) => "unexpected token"@,
            None => "unexpected end of input"@,
        },
        ParseErrV::ExpectedIdentifier { .. } => "expected an identifier"@,
        ParseErrV::ExpectedClose { .. } => "expected a closing delimiter"@,
    }
}

impl ParseError {
    /// The error rendered as its message text.
    pub fn message(&self) -> (r: String)
        ensures
            r@ == parse_err_chars(self@),
    {
        match self {
            ParseError::UnexpectedToken { token } => match token {
                Some(_) => "unexpected token".to_owned(),
                None => "unexpected end of input".to_owned(),
            },
            ParseError::ExpectedIdentifier { .. } => "expected an identifier".to_owned(),
            ParseError::ExpectedClose { .. } => "expected a closing delimiter".to_owned(),
        }
    }
}

/// The token at `pos`, when there is one.
pub open spec fn peek_s(ts: Seq<TokenV>, pos: int) -> Option<TokenV> {
    if 0 <= pos < ts.len() {
        Some(ts[pos])
    } else {
        None
    }
}

/// The position just past an optional trailing semicolon.
pub open spec fn skip_semi(ts: Seq<TokenV>, pos: int) -> int {
    if 0 <= pos < ts.len() && ts[pos] == TokenV::Semicolon {
        pos + 1
    } else {
        pos
    }
}

/// The next statement starting at `pos`: `None` at the end of the
/// stream, otherwise the statement and the position just past it.
pub open spec fn parse_next_statement_s(ts: Seq<TokenV>, pos: int) -> Result<
    Option<(StmtV, int)>,
    ParseErrV,
>
    decreases ts.len() - pos, 11int,
{
    match peek_s(ts, pos) {
        None => Ok(None),
        Some(t) => match parse_statement_s(ts, pos + 1, t) {
            Ok((s, p)) => Ok(Some((s, p))),
            Err(e) => Err(e),
        },
    }
}

/// A statement whose leading token `t` was already consumed and stood
/// just before `pos`: `let` and `return` forms by their keyword,
/// everything else an expression statement; a trailing semicolon is
/// optional for each.
pub open spec fn parse_statement_s(ts: Seq<TokenV>, pos: int, t: TokenV) -> Result<
    (StmtV, int),
    ParseErrV,
>
    decreases ts.len() - pos, 10int,
{
    if t == TokenV::Let {
        parse_let_s(ts, pos)
    } else if t == TokenV::Return {
        parse_return_s(ts, pos)
    } else {
        match parse_expression_s(ts, pos, 0, t) {
            Ok((e, p)) => Ok((StmtV::Expr(e), skip_semi(ts, p))),
            Err(e) => Err(e),
        }
    }
}

/// The rest of a `let` statement: an identifier, `=`, and the bound
/// expression.
pub open spec fn parse_let_s(ts: Seq<TokenV>, pos: int) -> Result<(StmtV, int), ParseErrV>
    decreases ts.len() - pos, 9int,
{
    match peek_s(ts, pos) {
        None => Err(ParseErrV::UnexpectedToken { token: None }),
        Some(TokenV::Ident(name)) => {
            if peek_s(ts, pos + 1) == Some(TokenV::Assign) {
                match peek_s(ts, pos + 2) {
                    None => Err(ParseErrV::UnexpectedToken { token: None }),
                    Some(t2) => match parse_expression_s(ts, pos + 3, 0, t2) {
                        Ok((e, p)) => Ok(
                            (StmtV::Let { name, expr: e }, skip_semi(ts, p)),
                        ),
                        Err(e) => Err(e),
                    },
                }
            } else {
                Err(ParseErrV::UnexpectedToken { token: peek_s(ts, pos + 1) })
            }
        },
        Some(other) => Err(ParseErrV::ExpectedIdentifier { token: Some(other) }),
    }
}

/// The rest of a `return` statement: the returned expression.
pub open spec fn parse_return_s(ts: Seq<TokenV>, pos: int) -> Result<(StmtV, int), ParseErrV>
    decreases ts.len() - pos, 9int,
{
    match peek_s(ts, pos) {
        None => Err(ParseErrV::UnexpectedToken { token: None }),
        Some(t) => match parse_expression_s(ts, pos + 1, 0, t) {
            Ok((e, p)) => Ok((StmtV::Return(e), skip_semi(ts, p))),
            Err(e) => Err(e),
        },
    }
}

/// Precedence climbing: a prefix form for the consumed token `t`, then
/// infix and call forms while the upcoming token binds tighter than
/// `min_prec`.
pub open spec fn parse_expression_s(ts: Seq<TokenV>, pos: int, min_prec: usize, t: TokenV) -> Result<
    (ExprV, int),
    ParseErrV,
>
    decreases ts.len() - pos, 8int,
{
    match parse_prefix_s(ts, pos, t) {
        Err(e) => Err(e),
        // a prefix form never moves backward or past the end; the
        // guard makes that visible to the termination check
        Ok((left, p)) => if pos <= p <= ts.len() {
            parse_infix_loop_s(ts, p, min_prec, left)
        } else {
            Err(ParseErrV::UnexpectedToken { token: None })
        },
    }
}

/// The infix phase: while the next token's precedence exceeds
/// `min_prec` and is no semicolon, extend `left` with a call form (on
/// `(`) or a left-associative infix form.
pub open spec fn parse_infix_loop_s(ts: Seq<TokenV>, pos: int, min_prec: usize, left: ExprV) -> Result<
    (ExprV, int),
    ParseErrV,
>
    decreases ts.len() - pos, 6int,
{
    match peek_s(ts, pos) {
        None => Ok((left, pos)),
        Some(op) => if op != TokenV::Semicolon && min_prec < precedence_s(op) {
            if op == TokenV::LParen {
                match parse_call_args_s(ts, pos + 1) {
                    Err(e) => Err(e),
                    // an argument list consumes at least its closing
                    // parenthesis, so the recursion advances
                    Ok((args, p2)) => if pos < p2 <= ts.len() {
                        parse_infix_loop_s(
                            ts,
                            p2,
                            min_prec,
                            ExprV::Call { callee: Box::new(left), args },
                        )
                    } else {
                        Err(ParseErrV::UnexpectedToken { token: None })
                    },
                }
            } else {
                match operation_s(op) {
                    None => Ok((left, pos)),
                    Some(o) => match peek_s(ts, pos + 1) {
                        None => Err(ParseErrV::UnexpectedToken { token: None }),
                        Some(t2) => match parse_expression_s(ts, pos + 2, precedence_s(op), t2) {
                            Err(e) => Err(e),
                            // the right operand's first token was consumed,
                            // so the recursion advances
                            Ok((right, p2)) => if pos < p2 <= ts.len() {
                                parse_infix_loop_s(
                                    ts,
                                    p2,
                                    min_prec,
                                    ExprV::Infix(o, Box::new(left), Box::new(right)),
                                )
                            } else {
                                Err(ParseErrV::UnexpectedToken { token: None })
                            },
                        },
                    },
                }
            }
        } else {
            Ok((left, pos))
        },
    }
}

/// The prefix form for the consumed token `t`: a literal or identifier
/// leaf, a prefix operator at precedence 6, a parenthesised group, a
/// conditional, or a function literal.
pub open spec fn parse_prefix_s(ts: Seq<TokenV>, pos: int, t: TokenV) -> Result<
    (ExprV, int),
    ParseErrV,
>
    decreases ts.len() - pos, 7int,
{
    match t {
        TokenV::Ident(n) => Ok((ExprV::Ident(n), pos)),
        TokenV::Int(v) => Ok((ExprV::Lit(LitV::Int(v)), pos)),
        TokenV::True => Ok((ExprV::Lit(LitV::True), pos)),
        TokenV::False => Ok((ExprV::Lit(LitV::False), pos)),
        TokenV::Nil => Ok((ExprV::Lit(LitV::Nil), pos)),
        TokenV::Bang => parse_prefix_operand_s(ts, pos, PrefixOperation::Bang),
        TokenV::Minus => parse_prefix_operand_s(ts, pos, PrefixOperation::Minus),
        TokenV::LParen => match peek_s(ts, pos) {
            None => Err(ParseErrV::UnexpectedToken { token: None }),
            Some(t2) => match parse_expression_s(ts, pos + 1, 0, t2) {
                Err(e) => Err(e),
                Ok((e, p)) => if peek_s(ts, p) == Some(TokenV::RParen) {
                    Ok((e, p + 1))
                } else {
                    Err(ParseErrV::ExpectedClose { token: peek_s(ts, p) })
                },
            },
        },
        TokenV::If => parse_if_s(ts, pos),
        TokenV::Function => parse_function_s(ts, pos),
        _ => Err(ParseErrV::UnexpectedToken { token: Some(t) }),
    }
}

/// The operand of a prefix operator, at the prefix precedence.
pub open spec fn parse_prefix_operand_s(ts: Seq<TokenV>, pos: int, op: PrefixOperation) -> Result<
    (ExprV, int),
    ParseErrV,
>
    decreases ts.len() - pos, 6int,
{
    match peek_s(ts, pos) {
        None => Err(ParseErrV::UnexpectedToken { token: None }),
        Some(t2) => match parse_expression_s(ts, pos + 1, 6, t2) {
            Err(e) => Err(e),
            Ok((e, p)) => Ok((ExprV::Prefix(op, Box::new(e)), p)),
        },
    }
}

/// A conditional: `( cond ) { consequence }` with an optional
/// `else { alternative }`.
pub open spec fn parse_if_s(ts: Seq<TokenV>, pos: int) -> Result<(ExprV, int), ParseErrV>
    decreases ts.len() - pos, 5int,
{
    if peek_s(ts, pos) != Some(TokenV::LParen) {
        Err(ParseErrV::UnexpectedToken { token: peek_s(ts, pos) })
    } else {
        match peek_s(ts, pos + 1) {
            None => Err(ParseErrV::UnexpectedToken { token: None }),
            Some(t2) => match parse_expression_s(ts, pos + 2, 0, t2) {
                Err(e) => Err(e),
                Ok((cond, p)) => if peek_s(ts, p) != Some(TokenV::RParen) {
                    Err(ParseErrV::ExpectedClose { token: peek_s(ts, p) })
                } else if peek_s(ts, p + 1) != Some(TokenV::LBrace) {
                    Err(ParseErrV::UnexpectedToken { token: peek_s(ts, p + 1) })
                } else if !(pos < p + 2 && p + 2 <= ts.len()) {
                    Err(ParseErrV::UnexpectedToken { token: None })
                } else {
                    match parse_block_s(ts, p + 2) {
                        Err(e) => Err(e),
                        Ok((cons, p3)) => if peek_s(ts, p3) == Some(TokenV::Else) {
                            if peek_s(ts, p3 + 1) != Some(TokenV::LBrace) {
                                Err(ParseErrV::UnexpectedToken { token: peek_s(ts, p3 + 1) })
                            } else if !(pos < p3 + 2 && p3 + 2 <= ts.len()) {
                                Err(ParseErrV::UnexpectedToken { token: None })
                            } else {
                                match parse_block_s(ts, p3 + 2) {
                                    Err(e) => Err(e),
                                    Ok((alt, p4)) => Ok(
                                        (
                                            ExprV::If {
                                                cond: Box::new(cond),
                                                consequence: cons,
                                                alternative: Some(alt),
                                            },
                                            p4,
                                        ),
                                    ),
                                }
                            }
                        } else {
                            Ok(
                                (
                                    ExprV::If {
                                        cond: Box::new(cond),
                                        consequence: cons,
                                        alternative: None,
                                    },
                                    p3,
                                ),
                            )
                        },
                    }
                },
            },
        }
    }
}

/// A function literal: `( params ) { body }`.
pub open spec fn parse_function_s(ts: Seq<TokenV>, pos: int) -> Result<(ExprV, int), ParseErrV>
    decreases ts.len() - pos, 5int,
{
    if peek_s(ts, pos) != Some(TokenV::LParen) {
        Err(ParseErrV::UnexpectedToken { token: peek_s(ts, pos) })
    } else {
        match parse_function_params_s(ts, pos + 1) {
            Err(e) => Err(e),
            Ok((params, p)) => if peek_s(ts, p) != Some(TokenV::LBrace) {
                Err(ParseErrV::UnexpectedToken { token: peek_s(ts, p) })
            } else if !(pos < p + 1 && p + 1 <= ts.len()) {
                Err(ParseErrV::UnexpectedToken { token: None })
            } else {
                match parse_block_s(ts, p + 1) {
                    Err(e) => Err(e),
                    Ok((body, p2)) => Ok((ExprV::Func { params, body }, p2)),
                }
            },
        }
    }
}

/// A parameter list after its `(`: identifiers separated by commas,
/// closed by `)`; empty lists are accepted.
pub open spec fn parse_function_params_s(ts: Seq<TokenV>, pos: int) -> Result<
    (Seq<Seq<char>>, int),
    ParseErrV,
>
    decreases ts.len() - pos, 4int,
{
    match peek_s(ts, pos) {
        None => Err(ParseErrV::UnexpectedToken { token: None }),
        Some(TokenV::RParen) => Ok((Seq::empty(), pos + 1)),
        Some(TokenV::Ident(n)) => parse_more_params_s(ts, pos + 1, seq![n]),
        Some(other) => Err(ParseErrV::ExpectedIdentifier { token: Some(other) }),
    }
}

/// The remaining parameters: `, IDENT` while a comma follows, then `)`.
pub open spec fn parse_more_params_s(ts: Seq<TokenV>, pos: int, acc: Seq<Seq<char>>) -> Result<
    (Seq<Seq<char>>, int),
    ParseErrV,
>
    decreases ts.len() - pos, 4int,
{
    if peek_s(ts, pos) == Some(TokenV::Comma) {
        match peek_s(ts, pos + 1) {
            None => Err(ParseErrV::UnexpectedToken { token: None }),
            Some(TokenV::Ident(n)) => parse_more_params_s(ts, pos + 2, acc.push(n)),
            Some(other) => Err(ParseErrV::ExpectedIdentifier { token: Some(other) }),
        }
    } else if peek_s(ts, pos) == Some(TokenV::RParen) {
        Ok((acc, pos + 1))
    } else {
        Err(ParseErrV::ExpectedClose { token: peek_s(ts, pos) })
    }
}

/// A call's argument list after its `(`: expressions separated by
/// commas, closed by `)`; empty lists are accepted.
pub open spec fn parse_call_args_s(ts: Seq<TokenV>, pos: int) -> Result<(Seq<ExprV>, int), ParseErrV>
    decreases ts.len() - pos, 4int,
{
    match peek_s(ts, pos) {
        None => Err(ParseErrV::UnexpectedToken { token: None }),
        Some(TokenV::RParen) => Ok((Seq::empty(), pos + 1)),
        Some(t) => match parse_expression_s(ts, pos + 1, 0, t) {
            Err(e) => Err(e),
            Ok((e, p)) => if pos < p <= ts.len() {
                parse_more_args_s(ts, p, seq![e])
            } else {
                Err(ParseErrV::UnexpectedToken { token: None })
            },
        },
    }
}

/// The remaining arguments: `, EXPR` while a comma follows, then `)`.
pub open spec fn parse_more_args_s(ts: Seq<TokenV>, pos: int, acc: Seq<ExprV>) -> Result<
    (Seq<ExprV>, int),
    ParseErrV,
>
    decreases ts.len() - pos, 3int,
{
    if peek_s(ts, pos) == Some(TokenV::Comma) {
        match peek_s(ts, pos + 1) {
            None => Err(ParseErrV::UnexpectedToken { token: None }),
            Some(t) => match parse_expression_s(ts, pos + 2, 0, t) {
                Err(e) => Err(e),
                Ok((e, p2)) => if pos < p2 <= ts.len() {
                    parse_more_args_s(ts, p2, acc.push(e))
                } else {
                    Err(ParseErrV::UnexpectedToken { token: None })
                },
            },
        }
    } else if peek_s(ts, pos) == Some(TokenV::RParen) {
        Ok((acc, pos + 1))
    } else {
        Err(ParseErrV::ExpectedClose { token: peek_s(ts, pos) })
    }
}

/// A block after its `{`: statements until the matching `}`.
pub open spec fn parse_block_s(ts: Seq<TokenV>, pos: int) -> Result<(BlockV, int), ParseErrV>
    decreases ts.len() - pos, 5int,
{
    match peek_s(ts, pos) {
        None => Err(ParseErrV::ExpectedClose { token: None }),
        Some(TokenV::RBrace) => Ok((BlockV(Seq::empty()), pos + 1)),
        Some(t) => match parse_statement_s(ts, pos + 1, t) {
            Err(e) => Err(e),
            // the statement's leading token was consumed, so the
            // recursion advances
            Ok((s, p)) => if pos < p <= ts.len() {
                match parse_block_s(ts, p) {
                    Err(e) => Err(e),
                    Ok((rest, p2)) => Ok((BlockV(seq![s] + rest.0), p2)),
                }
            } else {
                Err(ParseErrV::UnexpectedToken { token: None })
            },
        },
    }
}

/// A parser over a fixed token stream, with one-token lookahead: the
/// tokens and the position of the next unread one.
pub struct Parser {
    tokens: Vec<TokenType>,
    pos: usize,
}

impl Parser {
    /// The images of the tokens being parsed.
    pub closed spec fn toks(&self) -> Seq<TokenV> {
        toks_view(self.tokens@)
    }

    /// The position of the next unread token.
    pub closed spec fn at(&self) -> int {
        self.pos as int
    }

    /// The position stays within the stream.
    pub open spec fn wf(&self) -> bool {
        0 <= self.at() <= self.toks().len()
    }

    /// A parser over `tokens`, positioned at their start.
    pub fn new(tokens: Vec<TokenType>) -> (r: Parser)
        ensures
            r.toks() == toks_view(tokens@),
            r.at() == 0,
            r.wf(),
    {
        Parser { tokens, pos: 0 }
    }

    /// A copy of the upcoming token, if any; the stream is unread.
    fn peek_dup(&self) -> (r: Option<TokenType>)
        requires
            self.wf(),
        ensures
            opt_tok_view(r) == peek_s(self.toks(), self.at()),
    {
        if self.pos < self.tokens.len() {
            Some(self.tokens[self.pos].duplicate())
        } else {
            None
        }
    }

    /// The next token, or an error at the end of the stream.
    pub fn try_next_token(&mut self) -> (r: Result<TokenType, ParseError>)
        requires
            old(self).wf(),
        ensures
            final(self).toks() == old(self).toks(),
            final(self).wf(),
            old(self).at() <= final(self).at(),
            match peek_s(old(self).toks(), old(self).at()) {
                Some(t) => r matches Ok(tok) && tok@ == t && final(self).at() == old(self).at()
                    + 1,
                None => (r matches Err(e) && e@ == (ParseErrV::UnexpectedToken { token: None }))
                    && final(self).at() == old(self).at(),
            },
    {
        if self.pos < self.tokens.len() {
            let t = self.tokens[self.pos].duplicate();
            self.pos = self.pos + 1;
            Ok(t)
        } else {
            Err(ParseError::UnexpectedToken { token: None })
        }
    }

    /// Consumes the upcoming token exactly when it equals `token`,
    /// returning it; otherwise the stream is unread.
    pub fn assert_next_and_advance(&mut self, token: TokenType) -> (r: Option<TokenType>)
        requires
            old(self).wf(),
        ensures
            final(self).toks() == old(self).toks(),
            final(self).wf(),
            old(self).at() <= final(self).at(),
            if peek_s(old(self).toks(), old(self).at()) == Some(token@) {
                (r matches Some(tok) && tok@ == token@) && final(self).at() == old(self).at() + 1
            } else {
                r is None && final(self).at() == old(self).at()
            },
    {
        if self.pos < self.tokens.len() && self.tokens[self.pos] == token {
            let t = self.tokens[self.pos].duplicate();
            self.pos = self.pos + 1;
            Some(t)
        } else {
            None
        }
    }

    /// Consumes the upcoming token when it is an identifier; otherwise
    /// the error the grammar calls for.
    pub fn assert_next_ident(&mut self) -> (r: Result<Identifier, ParseError>)
        requires
            old(self).wf(),
        ensures
            final(self).toks() == old(self).toks(),
            final(self).wf(),
            old(self).at() <= final(self).at(),
            match peek_s(old(self).toks(), old(self).at()) {
                Some(TokenV::Ident(n)) => r matches Ok(id) && id@ == n && final(self).at() == old(
                    self,
                ).at() + 1,
                Some(other) => (r matches Err(e) && e@ == (ParseErrV::ExpectedIdentifier {
                    token: Some(other),
                })) && final(self).at() == old(self).at(),
                None => (r matches Err(e) && e@ == (ParseErrV::UnexpectedToken { token: None }))
                    && final(self).at() == old(self).at(),
            },
    {
        if self.pos < self.tokens.len() {
            match &self.tokens[self.pos] {
                TokenType::Identifier(id) => {
                    let r = id.duplicate();
                    self.pos = self.pos + 1;
                    Ok(r)
                },
                other => Err(
                    ParseError::ExpectedIdentifier { token: Some(other.duplicate()) },
                ),
            }
        } else {
            Err(ParseError::UnexpectedToken { token: None })
        }
    }

    /// Whether the upcoming token equals `token`; the stream is
    /// unread.
    pub fn assert_peek(&self, token: &TokenType) -> (r: bool)
        requires
            self.wf(),
        ensures
            r == (peek_s(self.toks(), self.at()) == Some(token@)),
    {
        self.pos < self.tokens.len() && self.tokens[self.pos] == *token
    }
}

impl Parser {
    /// The next statement of the stream, `Ok(None)` at its end, or
    /// the first parse error.
    pub fn parse_next_statement(&mut self) -> (r: Result<Option<Statement>, ParseError>)
        requires
            old(self).wf(),
        ensures
            final(self).toks() == old(self).toks(),
            final(self).wf(),
            old(self).at() <= final(self).at(),
            match parse_next_statement_s(old(self).toks(), old(self).at()) {
                Ok(None) => r matches Ok(None),
                Ok(Some((s, p))) => (r matches Ok(Some(stmt)) && stmt@ == s) && final(self).at()
                    == p && old(self).at() < p,
                Err(e) => r matches Err(pe) && pe@ == e,
            },
        decreases old(self).toks().len() - old(self).at(), 11int,
    {
        if self.pos >= self.tokens.len() {
            return Ok(None);
        }
        let token = self.tokens[self.pos].duplicate();
        self.pos = self.pos + 1;
        match self.parse_statement(token) {
            Ok(s) => Ok(Some(s)),
            Err(e) => Err(e),
        }
    }

    /// One statement, dispatched on its consumed leading token.
    fn parse_statement(&mut self, token: TokenType) -> (r: Result<Statement, ParseError>)
        requires
            old(self).wf(),
        ensures
            final(self).toks() == old(self).toks(),
            final(self).wf(),
            old(self).at() <= final(self).at(),
            match parse_statement_s(old(self).toks(), old(self).at(), token@) {
                Ok((s, p)) => (r matches Ok(stmt) && stmt@ == s) && final(self).at() == p,
                Err(e) => r matches Err(pe) && pe@ == e,
            },
        decreases old(self).toks().len() - old(self).at(), 10int,
    {
        match token {
            TokenType::Let => self.parse_let(),
            TokenType::Return => self.parse_expr_statement(),
            token => {
                let expression = match self.parse_expression(0, token) {
                    Ok(e) => e,
                    Err(e) => {
                        return Err(e);
                    },
                };
                self.assert_next_and_advance(TokenType::Semicolon);
                Ok(Statement::Expression(expression))
            },
        }
    }

    /// The rest of a `return` statement, with an optional trailing
    /// semicolon.
    pub fn parse_expr_statement(&mut self) -> (r: Result<Statement, ParseError>)
        requires
            old(self).wf(),
        ensures
            final(self).toks() == old(self).toks(),
            final(self).wf(),
            old(self).at() <= final(self).at(),
            match parse_return_s(old(self).toks(), old(self).at()) {
                Ok((s, p)) => (r matches Ok(stmt) && stmt@ == s) && final(self).at() == p,
                Err(e) => r matches Err(pe) && pe@ == e,
            },
        decreases old(self).toks().len() - old(self).at(), 9int,
    {
        let new_token = match self.try_next_token() {
            Ok(t) => t,
            Err(e) => {
                return Err(e);
            },
        };
        let left = match self.parse_expression(0, new_token) {
            Ok(e) => e,
            Err(e) => {
                return Err(e);
            },
        };
        self.assert_next_and_advance(TokenType::Semicolon);
        Ok(Statement::Return(left))
    }

    /// The rest of a `let` statement: an identifier, `=`, the bound
    /// expression, and an optional trailing semicolon.
    pub fn parse_let(&mut self) -> (r: Result<Statement, ParseError>)
        requires
            old(self).wf(),
        ensures
            final(self).toks() == old(self).toks(),
            final(self).wf(),
            old(self).at() <= final(self).at(),
            match parse_let_s(old(self).toks(), old(self).at()) {
                Ok((s, p)) => (r matches Ok(stmt) && stmt@ == s) && final(self).at() == p,
                Err(e) => r matches Err(pe) && pe@ == e,
            },
        decreases old(self).toks().len() - old(self).at(), 9int,
    {
        let identifier = match self.assert_next_ident() {
            Ok(id) => id,
            Err(e) => {
                return Err(e);
            },
        };
        if self.assert_next_and_advance(TokenType::Assign).is_none() {
            return Err(ParseError::UnexpectedToken { token: self.peek_dup() });
        }
        let current_token = match self.try_next_token() {
            Ok(t) => t,
            Err(e) => {
                return Err(e);
            },
        };
        let expression = match self.parse_expression(0, current_token) {
            Ok(e) => e,
            Err(e) => {
                return Err(e);
            },
        };
        self.assert_next_and_advance(TokenType::Semicolon);
        Ok(Statement::Let { identifier, expression })
    }

    /// Pratt parsing: the prefix form for the consumed token, then
    /// infix and call forms while the upcoming token binds tighter
    /// than `precedente`.
    pub fn parse_expression(&mut self, precedente: usize, current_token: TokenType) -> (r: Result<
        Expression,
        ParseError,
    >)
        requires
            old(self).wf(),
        ensures
            final(self).toks() == old(self).toks(),
            final(self).wf(),
            old(self).at() <= final(self).at(),
            match parse_expression_s(old(self).toks(), old(self).at(), precedente, current_token@) {
                Ok((e, p)) => (r matches Ok(expr) && expr@ == e) && final(self).at() == p,
                Err(e) => r matches Err(pe) && pe@ == e,
            },
        decreases old(self).toks().len() - old(self).at(), 8int,
    {
        let mut left = match self.parse_prefix(current_token) {
            Ok(e) => e,
            Err(e) => {
                return Err(e);
            },
        };
        let ghost goal = parse_expression_s(
            old(self).toks(),
            old(self).at(),
            precedente,
            current_token@,
        );
        proof {
            assert(goal == parse_infix_loop_s(self.toks(), self.at(), precedente, left@));
        }
        loop
            invariant
                self.wf(),
                self.toks() == old(self).toks(),
                old(self).at() <= self.at(),
                goal == parse_infix_loop_s(self.toks(), self.at(), precedente, left@),
                goal == parse_expression_s(
                    old(self).toks(),
                    old(self).at(),
                    precedente,
                    current_token@,
                ),
            decreases self.toks().len() - self.at(),
        {
            let ghost pre_at = self.at();
            if self.pos >= self.tokens.len() {
                return Ok(left);
            }
            let stop = {
                let pk = &self.tokens[self.pos];
                *pk == TokenType::Semicolon || precedente >= pk.precedence()
            };
            if stop {
                return Ok(left);
            }
            let next = self.tokens[self.pos].duplicate();
            self.pos = self.pos + 1;
            let is_call = next == TokenType::LParen;
            if is_call {
                left = match self.parse_call_expression(left) {
                    Ok(e) => e,
                    Err(e) => {
                        return Err(e);
                    },
                };
            } else {
                left = match self.parse_infix_expression(left, next) {
                    Ok(e) => e,
                    Err(e) => {
                        return Err(e);
                    },
                };
            }
        }
    }

    /// The operand of a consumed prefix operator, parsed at the prefix
    /// precedence.
    fn parse_prefix_expression(&mut self, operation: PrefixOperation) -> (r: Result<
        Expression,
        ParseError,
    >)
        requires
            old(self).wf(),
        ensures
            final(self).toks() == old(self).toks(),
            final(self).wf(),
            old(self).at() <= final(self).at(),
            match parse_prefix_operand_s(old(self).toks(), old(self).at(), operation) {
                Ok((e, p)) => (r matches Ok(expr) && expr@ == e) && final(self).at() == p,
                Err(e) => r matches Err(pe) && pe@ == e,
            },
        decreases old(self).toks().len() - old(self).at(), 6int,
    {
        let token = match self.try_next_token() {
            Ok(t) => t,
            Err(e) => {
                return Err(e);
            },
        };
        let expression = match self.parse_expression(6, token) {
            Ok(e) => e,
            Err(e) => {
                return Err(e);
            },
        };
        Ok(Expression::Prefix(Prefix { operation, expression: expression.boxed() }))
    }

    /// A parenthesised expression, whose `(` was consumed: the inner
    /// expression and the required `)`.
    fn parse_grouped_expression(&mut self) -> (r: Result<Expression, ParseError>)
        requires
            old(self).wf(),
        ensures
            final(self).toks() == old(self).toks(),
            final(self).wf(),
            old(self).at() <= final(self).at(),
            match parse_prefix_s(old(self).toks(), old(self).at(), TokenV::LParen) {
                Ok((e, p)) => (r matches Ok(expr) && expr@ == e) && final(self).at() == p,
                Err(e) => r matches Err(pe) && pe@ == e,
            },
        decreases old(self).toks().len() - old(self).at(), 6int,
    {
        let previous_token = match self.try_next_token() {
            Ok(t) => t,
            Err(e) => {
                return Err(e);
            },
        };
        let expression = match self.parse_expression(0, previous_token) {
            Ok(e) => e,
            Err(e) => {
                return Err(e);
            },
        };
        if self.assert_next_and_advance(TokenType::RParen).is_none() {
            return Err(ParseError::ExpectedClose { token: self.peek_dup() });
        }
        Ok(expression)
    }

    /// A conditional, whose `if` was consumed: `( cond ) { then }`
    /// with an optional `else { alternative }`.
    fn parse_if_expression(&mut self) -> (r: Result<Expression, ParseError>)
        requires
            old(self).wf(),
        ensures
            final(self).toks() == old(self).toks(),
            final(self).wf(),
            old(self).at() <= final(self).at(),
            match parse_if_s(old(self).toks(), old(self).at()) {
                Ok((e, p)) => (r matches Ok(expr) && expr@ == e) && final(self).at() == p,
                Err(e) => r matches Err(pe) && pe@ == e,
            },
        decreases old(self).toks().len() - old(self).at(), 5int,
    {
        if self.assert_next_and_advance(TokenType::LParen).is_none() {
            return Err(ParseError::UnexpectedToken { token: self.peek_dup() });
        }
        let current_token = match self.try_next_token() {
            Ok(t) => t,
            Err(e) => {
                return Err(e);
            },
        };
        let condition = match self.parse_expression(0, current_token) {
            Ok(e) => e,
            Err(e) => {
                return Err(e);
            },
        };
        if self.assert_next_and_advance(TokenType::RParen).is_none() {
            return Err(ParseError::ExpectedClose { token: self.peek_dup() });
        }
        if self.assert_next_and_advance(TokenType::LBrace).is_none() {
            return Err(ParseError::UnexpectedToken { token: self.peek_dup() });
        }
        let consequence = match self.parse_block() {
            Ok(b) => b,
            Err(e) => {
                return Err(e);
            },
        };
        let mut alternative: Option<Block> = None;
        if self.assert_next_and_advance(TokenType::Else).is_some() {
            if self.assert_next_and_advance(TokenType::LBrace).is_none() {
                return Err(ParseError::UnexpectedToken { token: self.peek_dup() });
            }
            alternative = match self.parse_block() {
                Ok(b) => Some(b),
                Err(e) => {
                    return Err(e);
                },
            };
        }
        Ok(Expression::If(If { condition: condition.boxed(), alternative, consequence }))
    }

    /// The statements of a block, up to and including its `}`.
    fn parse_block(&mut self) -> (r: Result<Block, ParseError>)
        requires
            old(self).wf(),
        ensures
            final(self).toks() == old(self).toks(),
            final(self).wf(),
            old(self).at() <= final(self).at(),
            match parse_block_s(old(self).toks(), old(self).at()) {
                Ok((b, p)) => (r matches Ok(block) && block@ == b) && final(self).at() == p,
                Err(e) => r matches Err(pe) && pe@ == e,
            },
        decreases old(self).toks().len() - old(self).at(), 5int,
    {
        let mut statements: Vec<Statement> = Vec::new();
        let ghost goal = parse_block_s(old(self).toks(), old(self).at());
        loop
            invariant
                self.wf(),
                self.toks() == old(self).toks(),
                old(self).at() <= self.at(),
                goal == parse_block_s(old(self).toks(), old(self).at()),
                match parse_block_s(self.toks(), self.at()) {
                    Ok((b, p)) => goal == Ok::<(BlockV, int), ParseErrV>(
                        (BlockV(stmts_view(statements@) + b.0), p),
                    ),
                    Err(e) => goal == Err::<(BlockV, int), ParseErrV>(e),
                },
            decreases self.toks().len() - self.at(),
        {
            let ghost pre_at = self.at();
            if self.pos >= self.tokens.len() {
                return Err(ParseError::ExpectedClose { token: None });
            }
            if self.tokens[self.pos] == TokenType::RBrace {
                self.pos = self.pos + 1;
                proof {
                    assert(stmts_view(statements@) + Seq::<StmtV>::empty() =~= stmts_view(
                        statements@,
                    ));
                }
                return Ok(Block(statements));
            }
            let current_token = self.tokens[self.pos].duplicate();
            let ghost tv = current_token@;
            self.pos = self.pos + 1;
            let statement = match self.parse_statement(current_token) {
                Ok(s) => s,
                Err(e) => {
                    return Err(e);
                },
            };
            let ghost prev = statements@;
            statements.push(statement);
            proof {
                let ts = self.toks();
                assert(peek_s(ts, pre_at) == Some(tv));
                assert(tv != TokenV::RBrace);
                assert(pre_at < self.at() <= ts.len());
                assert(parse_statement_s(ts, pre_at + 1, tv) == Ok::<(StmtV, int), ParseErrV>(
                    (statements@.last()@, self.at()),
                ));
                assert(statements@.drop_last() =~= prev);
                lemma_stmts_view_push(prev, statements@.last());
                assert(prev.push(statements@.last()) =~= statements@);
                assert(stmts_view(statements@) =~= stmts_view(prev) + seq![
                    statements@.last()@,
                ]);
                match parse_block_s(ts, self.at()) {
                    Ok((b, p)) => {
                        assert(parse_block_s(ts, pre_at) == Ok::<(BlockV, int), ParseErrV>(
                            (BlockV(seq![statements@.last()@] + b.0), p),
                        ));
                        assert(stmts_view(statements@) + b.0 =~= stmts_view(prev) + (seq![
                            statements@.last()@,
                        ] + b.0));
                    },
                    Err(e) => {
                        assert(parse_block_s(ts, pre_at) == Err::<(BlockV, int), ParseErrV>(e));
                    },
                }
            }
        }
    }

    /// A function literal, whose `fn` was consumed: `( params )` and a
    /// block body.
    fn parse_function(&mut self) -> (r: Result<Expression, ParseError>)
        requires
            old(self).wf(),
        ensures
            final(self).toks() == old(self).toks(),
            final(self).wf(),
            old(self).at() <= final(self).at(),
            match parse_function_s(old(self).toks(), old(self).at()) {
                Ok((e, p)) => (r matches Ok(expr) && expr@ == e) && final(self).at() == p,
                Err(e) => r matches Err(pe) && pe@ == e,
            },
        decreases old(self).toks().len() - old(self).at(), 5int,
    {
        if self.assert_next_and_advance(TokenType::LParen).is_none() {
            return Err(ParseError::UnexpectedToken { token: self.peek_dup() });
        }
        let params = match self.parse_function_params() {
            Ok(ps) => ps,
            Err(e) => {
                return Err(e);
            },
        };
        if self.assert_next_and_advance(TokenType::LBrace).is_none() {
            return Err(ParseError::UnexpectedToken { token: self.peek_dup() });
        }
        let body = match self.parse_block() {
            Ok(b) => b,
            Err(e) => {
                return Err(e);
            },
        };
        Ok(Expression::Function(Function { body, params }))
    }

    /// A parameter list after its `(`: identifiers separated by
    /// commas, closed by `)`.
    fn parse_function_params(&mut self) -> (r: Result<Vec<Identifier>, ParseError>)
        requires
            old(self).wf(),
        ensures
            final(self).toks() == old(self).toks(),
            final(self).wf(),
            old(self).at() <= final(self).at(),
            match parse_function_params_s(old(self).toks(), old(self).at()) {
                Ok((ps, p)) => (r matches Ok(ids) && idents_view(ids@) == ps) && final(self).at()
                    == p,
                Err(e) => r matches Err(pe) && pe@ == e,
            },
        decreases old(self).toks().len() - old(self).at(), 4int,
    {
        let mut identifiers: Vec<Identifier> = Vec::new();
        if self.assert_next_and_advance(TokenType::RParen).is_some() {
            proof {
                assert(idents_view(identifiers@) =~= Seq::<Seq<char>>::empty());
            }
            return Ok(identifiers);
        }
        let id = match self.assert_next_ident() {
            Ok(id) => id,
            Err(e) => {
                return Err(e);
            },
        };
        identifiers.push(id);
        let ghost goal = parse_function_params_s(old(self).toks(), old(self).at());
        proof {
            assert(idents_view(identifiers@) =~= seq![identifiers@.last()@]);
        }
        loop
            invariant
                self.wf(),
                self.toks() == old(self).toks(),
                old(self).at() <= self.at(),
                goal == parse_function_params_s(old(self).toks(), old(self).at()),
                goal == parse_more_params_s(self.toks(), self.at(), idents_view(identifiers@)),
            decreases self.toks().len() - self.at(),
        {
            let ghost pre_at = self.at();
            let ghost pre_ids = idents_view(identifiers@);
            if self.assert_next_and_advance(TokenType::Comma).is_some() {
                let id2 = match self.assert_next_ident() {
                    Ok(id) => id,
                    Err(e) => {
                        return Err(e);
                    },
                };
                identifiers.push(id2);
                proof {
                    assert(idents_view(identifiers@) =~= pre_ids.push(identifiers@.last()@));
                }
            } else if self.assert_next_and_advance(TokenType::RParen).is_some() {
                return Ok(identifiers);
            } else {
                return Err(ParseError::ExpectedClose { token: self.peek_dup() });
            }
        }
    }

    /// A call's arguments after its `(`: expressions separated by
    /// commas, closed by `)`.
    fn parse_call_arguments(&mut self) -> (r: Result<Vec<Expression>, ParseError>)
        requires
            old(self).wf(),
        ensures
            final(self).toks() == old(self).toks(),
            final(self).wf(),
            old(self).at() <= final(self).at(),
            match parse_call_args_s(old(self).toks(), old(self).at()) {
                Ok((es, p)) => (r matches Ok(args) && exprs_view(args@) == es) && final(self).at()
                    == p,
                Err(e) => r matches Err(pe) && pe@ == e,
            },
        decreases old(self).toks().len() - old(self).at(), 4int,
    {
        let mut args: Vec<Expression> = Vec::new();
        if self.assert_next_and_advance(TokenType::RParen).is_some() {
            proof {
                assert(exprs_view(args@) =~= Seq::<ExprV>::empty());
            }
            return Ok(args);
        }
        let current_token = match self.try_next_token() {
            Ok(t) => t,
            Err(e) => {
                return Err(e);
            },
        };
        let first = match self.parse_expression(0, current_token) {
            Ok(e) => e,
            Err(e) => {
                return Err(e);
            },
        };
        let ghost pre_vec0 = args@;
        args.push(first);
        let ghost goal = parse_call_args_s(old(self).toks(), old(self).at());
        proof {
            assert(pre_vec0 =~= Seq::<Expression>::empty());
            lemma_exprs_view_push(pre_vec0, args@.last());
            assert(pre_vec0.push(args@.last()) =~= args@);
            assert(exprs_view(pre_vec0) =~= Seq::<ExprV>::empty());
            assert(exprs_view(args@) =~= seq![args@.last()@]);
        }
        loop
            invariant
                self.wf(),
                self.toks() == old(self).toks(),
                old(self).at() <= self.at(),
                goal == parse_call_args_s(old(self).toks(), old(self).at()),
                goal == parse_more_args_s(self.toks(), self.at(), exprs_view(args@)),
            decreases self.toks().len() - self.at(),
        {
            let ghost pre_at = self.at();
            let ghost pre_args = exprs_view(args@);
            if self.assert_next_and_advance(TokenType::Comma).is_some() {
                let current_token = match self.try_next_token() {
                    Ok(t) => t,
                    Err(e) => {
                        return Err(e);
                    },
                };
                let arg = match self.parse_expression(0, current_token) {
                    Ok(e) => e,
                    Err(e) => {
                        return Err(e);
                    },
                };
                let ghost pre_vec = args@;
                args.push(arg);
                proof {
                    assert(args@.drop_last() =~= pre_vec);
                    lemma_exprs_view_push(pre_vec, args@.last());
                    assert(pre_vec.push(args@.last()) =~= args@);
                    assert(exprs_view(args@) =~= pre_args.push(args@.last()@));
                }
            } else if self.assert_next_and_advance(TokenType::RParen).is_some() {
                return Ok(args);
            } else {
                return Err(ParseError::ExpectedClose { token: self.peek_dup() });
            }
        }
    }

    /// A call form: the consumed `(` begins the arguments of a call
    /// whose callee is the expression parsed so far.
    fn parse_call_expression(&mut self, function: Expression) -> (r: Result<Expression, ParseError>)
        requires
            old(self).wf(),
        ensures
            final(self).toks() == old(self).toks(),
            final(self).wf(),
            old(self).at() <= final(self).at(),
            match parse_call_args_s(old(self).toks(), old(self).at()) {
                Ok((es, p)) => (r matches Ok(expr) && expr@ == (ExprV::Call {
                    callee: Box::new(function@),
                    args: es,
                })) && final(self).at() == p,
                Err(e) => r matches Err(pe) && pe@ == e,
            },
        decreases old(self).toks().len() - old(self).at(), 5int,
    {
        let arguments = match self.parse_call_arguments() {
            Ok(a) => a,
            Err(e) => {
                return Err(e);
            },
        };
        Ok(Expression::Call(Call { function: function.boxed(), arguments }))
    }

    /// An infix form: the consumed operator token joins the expression
    /// parsed so far with a right operand parsed at the operator's
    /// precedence.
    fn parse_infix_expression(&mut self, left_expression: Expression, token: TokenType) -> (r:
        Result<Expression, ParseError>)
        requires
            old(self).wf(),
        ensures
            final(self).toks() == old(self).toks(),
            final(self).wf(),
            old(self).at() <= final(self).at(),
            match operation_s(token@) {
                None => (r matches Ok(expr) && expr@ == left_expression@) && final(self).at()
                    == old(self).at(),
                Some(o) => match peek_s(old(self).toks(), old(self).at()) {
                    None => r matches Err(e) && e@ == (ParseErrV::UnexpectedToken { token: None }),
                    Some(t2) => match parse_expression_s(
                        old(self).toks(),
                        old(self).at() + 1,
                        precedence_s(token@),
                        t2,
                    ) {
                        Ok((right, p)) => (r matches Ok(expr) && expr@ == (ExprV::Infix(
                            o,
                            Box::new(left_expression@),
                            Box::new(right),
                        ))) && final(self).at() == p,
                        Err(e) => r matches Err(pe) && pe@ == e,
                    },
                },
            },
        decreases old(self).toks().len() - old(self).at(), 5int,
    {
        let precedence = token.precedence();
        let operation = match token.operation() {
            Some(o) => o,
            None => {
                return Ok(left_expression);
            },
        };
        let token_new = match self.try_next_token() {
            Ok(t) => t,
            Err(e) => {
                return Err(e);
            },
        };
        let right_expression = match self.parse_expression(precedence, token_new) {
            Ok(e) => e,
            Err(e) => {
                return Err(e);
            },
        };
        Ok(
            Expression::Infix(
                Infix {
                    right_expression: right_expression.boxed(),
                    operation,
                    left_expression: left_expression.boxed(),
                },
            ),
        )
    }

    /// The prefix form for the consumed token: a literal or identifier
    /// leaf, a prefix operator, a group, a conditional, or a function
    /// literal.
    pub fn parse_prefix(&mut self, token: TokenType) -> (r: Result<Expression, ParseError>)
        requires
            old(self).wf(),
        ensures
            final(self).toks() == old(self).toks(),
            final(self).wf(),
            old(self).at() <= final(self).at(),
            match parse_prefix_s(old(self).toks(), old(self).at(), token@) {
                Ok((e, p)) => (r matches Ok(expr) && expr@ == e) && final(self).at() == p,
                Err(e) => r matches Err(pe) && pe@ == e,
            },
        decreases old(self).toks().len() - old(self).at(), 7int,
    {
        match token {
            TokenType::Identifier(name) => Ok(Expression::Identifier(name)),
            TokenType::Int(num) => Ok(Expression::Literal(Literal::Int(num))),
            TokenType::True => Ok(Expression::Literal(Literal::True)),
            TokenType::False => Ok(Expression::Literal(Literal::False)),
            TokenType::Nil => Ok(Expression::Literal(Literal::Nil)),
            TokenType::Bang => self.parse_prefix_expression(PrefixOperation::Bang),
            TokenType::Minus => self.parse_prefix_expression(PrefixOperation::Minus),
            TokenType::LParen => self.parse_grouped_expression(),
            TokenType::If => self.parse_if_expression(),
            TokenType::Function => self.parse_function(),
            other => Err(ParseError::UnexpectedToken { token: Some(other) }),
        }
    }
}

/// Lexing and parsing are deterministic: the token stream and every
/// statement parsed from it are functions of the source text alone,
/// so two runs over equal texts agree.
pub proof fn lemma_parse_lex_deterministic(a: Seq<char>, b: Seq<char>)
    requires
        a == b,
    ensures
        crate::lexer::lex_s(a, 0) == crate::lexer::lex_s(b, 0),
        forall|pos: int|
            parse_next_statement_s(crate::lexer::lex_s(a, 0), pos) == parse_next_statement_s(
                crate::lexer::lex_s(b, 0),
                pos,
            ),
{
}

/// Products bind tighter than sums: `a + b * c` parses as
/// `a + (b * c)`, for any identifiers `a`, `b`, `c`.
pub proof fn lemma_product_binds_tighter(a: Seq<char>, b: Seq<char>, c: Seq<char>)
    ensures
        parse_next_statement_s(
            seq![
                TokenV::Ident(a),
                TokenV::Plus,
                TokenV::Ident(b),
                TokenV::Asterisk,
                TokenV::Ident(c),
            ],
            0,
        ) == Ok::<Option<(StmtV, int)>, ParseErrV>(
            Some(
                (
                    StmtV::Expr(
                        ExprV::Infix(
                            InfixOperation::Add,
                            Box::new(ExprV::Ident(a)),
                            Box::new(
                                ExprV::Infix(
                                    InfixOperation::Mul,
                                    Box::new(ExprV::Ident(b)),
                                    Box::new(ExprV::Ident(c)),
                                ),
                            ),
                        ),
                    ),
                    5,
                ),
            ),
        ),
{
    reveal_with_fuel(parse_infix_loop_s, 6);
    reveal_with_fuel(parse_expression_s, 6);
    reveal_with_fuel(parse_prefix_s, 6);
    let ts = seq![
        TokenV::Ident(a),
        TokenV::Plus,
        TokenV::Ident(b),
        TokenV::Asterisk,
        TokenV::Ident(c),
    ];
    assert(ts.len() == 5);
    assert(ts[0] == TokenV::Ident(a));
    assert(parse_prefix_s(ts, 1, TokenV::Ident(a)) == Ok::<(ExprV, int), ParseErrV>(
        (ExprV::Ident(a), 1),
    ));
    assert(parse_prefix_s(ts, 5, TokenV::Ident(c)) == Ok::<(ExprV, int), ParseErrV>(
        (ExprV::Ident(c), 5),
    ));
    assert(peek_s(ts, 5) is None);
    assert(parse_infix_loop_s(ts, 5, 5, ExprV::Ident(c)) == Ok::<(ExprV, int), ParseErrV>(
        (ExprV::Ident(c), 5),
    ));
    assert(parse_expression_s(ts, 5, 5, TokenV::Ident(c)) == Ok::<(ExprV, int), ParseErrV>(
        (ExprV::Ident(c), 5),
    ));
    let bc = ExprV::Infix(
        InfixOperation::Mul,
        Box::new(ExprV::Ident(b)),
        Box::new(ExprV::Ident(c)),
    );
    assert(peek_s(ts, 3) == Some(TokenV::Asterisk));
    assert(parse_infix_loop_s(ts, 3, 4, ExprV::Ident(b)) == Ok::<(ExprV, int), ParseErrV>(
        (bc, 5),
    ));
    assert(parse_expression_s(ts, 3, 4, TokenV::Ident(b)) == Ok::<(ExprV, int), ParseErrV>(
        (bc, 5),
    ));
    let abc = ExprV::Infix(InfixOperation::Add, Box::new(ExprV::Ident(a)), Box::new(bc));
    assert(peek_s(ts, 1) == Some(TokenV::Plus));
    assert(parse_infix_loop_s(ts, 1, 0, ExprV::Ident(a)) == Ok::<(ExprV, int), ParseErrV>(
        (abc, 5),
    ));
    assert(parse_expression_s(ts, 1, 0, TokenV::Ident(a)) == Ok::<(ExprV, int), ParseErrV>(
        (abc, 5),
    ));
    assert(parse_statement_s(ts, 1, TokenV::Ident(a)) == Ok::<(StmtV, int), ParseErrV>(
        (StmtV::Expr(abc), 5),
    ));
}

/// A prefix minus binds tighter than a product: `-a * b` parses as
/// `(-a) * b`, for any identifiers `a`, `b`.
pub proof fn lemma_prefix_binds_tighter(a: Seq<char>, b: Seq<char>)
    ensures
        parse_next_statement_s(
            seq![TokenV::Minus, TokenV::Ident(a), TokenV::Asterisk, TokenV::Ident(b)],
            0,
        ) == Ok::<Option<(StmtV, int)>, ParseErrV>(
            Some(
                (
                    StmtV::Expr(
                        ExprV::Infix(
                            InfixOperation::Mul,
                            Box::new(
                                ExprV::Prefix(
                                    PrefixOperation::Minus,
                                    Box::new(ExprV::Ident(a)),
                                ),
                            ),
                            Box::new(ExprV::Ident(b)),
                        ),
                    ),
                    4,
                ),
            ),
        ),
{
    reveal_with_fuel(parse_infix_loop_s, 6);
    reveal_with_fuel(parse_expression_s, 6);
    reveal_with_fuel(parse_prefix_s, 6);
    reveal_with_fuel(parse_prefix_operand_s, 6);
    let ts = seq![TokenV::Minus, TokenV::Ident(a), TokenV::Asterisk, TokenV::Ident(b)];
    assert(ts.len() == 4);
    assert(parse_prefix_s(ts, 2, TokenV::Ident(a)) == Ok::<(ExprV, int), ParseErrV>(
        (ExprV::Ident(a), 2),
    ));
    assert(peek_s(ts, 2) == Some(TokenV::Asterisk));
    assert(parse_infix_loop_s(ts, 2, 6, ExprV::Ident(a)) == Ok::<(ExprV, int), ParseErrV>(
        (ExprV::Ident(a), 2),
    ));
    assert(parse_expression_s(ts, 2, 6, TokenV::Ident(a)) == Ok::<(ExprV, int), ParseErrV>(
        (ExprV::Ident(a), 2),
    ));
    let neg_a = ExprV::Prefix(PrefixOperation::Minus, Box::new(ExprV::Ident(a)));
    assert(peek_s(ts, 1) == Some(TokenV::Ident(a)));
    assert(parse_prefix_operand_s(ts, 1, PrefixOperation::Minus) == Ok::<
        (ExprV, int),
        ParseErrV,
    >((neg_a, 2)));
    assert(parse_prefix_s(ts, 1, TokenV::Minus) == Ok::<(ExprV, int), ParseErrV>((neg_a, 2)));
    assert(parse_prefix_s(ts, 4, TokenV::Ident(b)) == Ok::<(ExprV, int), ParseErrV>(
        (ExprV::Ident(b), 4),
    ));
    assert(peek_s(ts, 4) is None);
    assert(parse_expression_s(ts, 4, 5, TokenV::Ident(b)) == Ok::<(ExprV, int), ParseErrV>(
        (ExprV::Ident(b), 4),
    ));
    let prod = ExprV::Infix(InfixOperation::Mul, Box::new(neg_a), Box::new(ExprV::Ident(b)));
    assert(peek_s(ts, 2) == Some(TokenV::Asterisk));
    assert(parse_infix_loop_s(ts, 2, 0, neg_a) == Ok::<(ExprV, int), ParseErrV>((prod, 4)));
    assert(parse_expression_s(ts, 1, 0, TokenV::Minus) == Ok::<(ExprV, int), ParseErrV>(
        (prod, 4),
    ));
    assert(parse_statement_s(ts, 1, TokenV::Minus) == Ok::<(StmtV, int), ParseErrV>(
        (StmtV::Expr(prod), 4),
    ));
}

/// Sums and differences associate to the left: `a - b - c` parses as
/// `(a - b) - c`, for any identifiers `a`, `b`, `c`.
pub proof fn lemma_difference_left_associative(a: Seq<char>, b: Seq<char>, c: Seq<char>)
    ensures
        parse_next_statement_s(
            seq![
                TokenV::Ident(a),
                TokenV::Minus,
                TokenV::Ident(b),
                TokenV::Minus,
                TokenV::Ident(c),
            ],
            0,
        ) == Ok::<Option<(StmtV, int)>, ParseErrV>(
            Some(
                (
                    StmtV::Expr(
                        ExprV::Infix(
                            InfixOperation::Sub,
                            Box::new(
                                ExprV::Infix(
                                    InfixOperation::Sub,
                                    Box::new(ExprV::Ident(a)),
                                    Box::new(ExprV::Ident(b)),
                                ),
                            ),
                            Box::new(ExprV::Ident(c)),
                        ),
                    ),
                    5,
                ),
            ),
        ),
{
    reveal_with_fuel(parse_infix_loop_s, 6);
    reveal_with_fuel(parse_expression_s, 6);
    reveal_with_fuel(parse_prefix_s, 6);
    let ts = seq![
        TokenV::Ident(a),
        TokenV::Minus,
        TokenV::Ident(b),
        TokenV::Minus,
        TokenV::Ident(c),
    ];
    assert(ts.len() == 5);
    assert(parse_prefix_s(ts, 3, TokenV::Ident(b)) == Ok::<(ExprV, int), ParseErrV>(
        (ExprV::Ident(b), 3),
    ));
    assert(peek_s(ts, 3) == Some(TokenV::Minus));
    assert(parse_infix_loop_s(ts, 3, 4, ExprV::Ident(b)) == Ok::<(ExprV, int), ParseErrV>(
        (ExprV::Ident(b), 3),
    ));
    assert(parse_expression_s(ts, 3, 4, TokenV::Ident(b)) == Ok::<(ExprV, int), ParseErrV>(
        (ExprV::Ident(b), 3),
    ));
    assert(parse_prefix_s(ts, 5, TokenV::Ident(c)) == Ok::<(ExprV, int), ParseErrV>(
        (ExprV::Ident(c), 5),
    ));
    assert(peek_s(ts, 5) is None);
    assert(parse_expression_s(ts, 5, 4, TokenV::Ident(c)) == Ok::<(ExprV, int), ParseErrV>(
        (ExprV::Ident(c), 5),
    ));
    let ab = ExprV::Infix(
        InfixOperation::Sub,
        Box::new(ExprV::Ident(a)),
        Box::new(ExprV::Ident(b)),
    );
    let abc = ExprV::Infix(InfixOperation::Sub, Box::new(ab), Box::new(ExprV::Ident(c)));
    assert(parse_infix_loop_s(ts, 5, 0, abc) == Ok::<(ExprV, int), ParseErrV>((abc, 5)));
    assert(parse_infix_loop_s(ts, 3, 0, ab) == Ok::<(ExprV, int), ParseErrV>((abc, 5)));
    assert(parse_prefix_s(ts, 1, TokenV::Ident(a)) == Ok::<(ExprV, int), ParseErrV>(
        (ExprV::Ident(a), 1),
    ));
    assert(parse_infix_loop_s(ts, 1, 0, ExprV::Ident(a)) == Ok::<(ExprV, int), ParseErrV>(
        (abc, 5),
    ));
    assert(parse_expression_s(ts, 1, 0, TokenV::Ident(a)) == Ok::<(ExprV, int), ParseErrV>(
        (abc, 5),
    ));
    assert(parse_statement_s(ts, 1, TokenV::Ident(a)) == Ok::<(StmtV, int), ParseErrV>(
        (StmtV::Expr(abc), 5),
    ));
}

} // verus!
