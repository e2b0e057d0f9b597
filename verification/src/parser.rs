//! The recursive-descent parser: a cursor over the token sequence and one
//! function per grammar level. The `sp_` functions are the mathematical
//! description of the grammar; each `Parser` method is proved to implement
//! its level. Precedence rises from equality through comparison, term and
//! factor to unary and primary; `term` and `factor` fold to the left, while
//! `equality` and `comparison` apply their operator at most once.
use crate::errors::{ErrM, ErrorTypes, LErrM, LunalaErrors};
use crate::expressions::{spec_new_number, ExpM, ExpType, LitM, Literal};
use crate::statement::{Statement, Statements, StmtM};
use crate::tokens::{spec_access_lexeme, spec_token_name, Token, TokenM, TokenType};
use vstd::prelude::*;
use vstd::string::*;

verus! {

/// The token under the cursor, or the error that the cursor is out of the
/// sequence.
pub open spec fn spec_peek(ts: Seq<TokenM>, i: nat) -> Result<TokenM, LErrM> {
    if i < ts.len() {
        Result::Ok(ts[i as int])
    } else {
        Result::Err(LErrM { kind: ErrM::InvalidToken("No token at cursor"@), line: i })
    }
}

/// The token just before the cursor, or the error that none was consumed
/// yet.
pub open spec fn spec_previous(ts: Seq<TokenM>, i: nat) -> Result<TokenM, LErrM> {
    if i == 0 {
        Result::Err(LErrM { kind: ErrM::NoPreviousItem(0), line: 0 })
    } else if i - 1 < ts.len() {
        Result::Ok(ts[i - 1])
    } else {
        Result::Err(LErrM { kind: ErrM::NoPreviousItem((i - 1) as nat), line: i })
    }
}

/// What `advance` does: step past the token under the cursor unless it is
/// the end-of-input token, and yield the token just consumed.
pub open spec fn sp_advance(ts: Seq<TokenM>, i: nat) -> Result<(TokenM, nat), LErrM> {
    match spec_peek(ts, i) {
        Result::Err(e) => Result::Err(e),
        Result::Ok(t) => {
            let ni: nat = if t.kind == TokenType::EOF {
                i
            } else {
                i + 1
            };
            match spec_previous(ts, ni) {
                Result::Err(e) => Result::Err(e),
                Result::Ok(p) => Result::Ok((p, ni)),
            }
        },
    }
}

/// The message of a failed `consume`.
pub open spec fn consume_error_text(expected: TokenType, found: TokenM, msg: Seq<char>) -> Seq<
    char,
> {
    "Consume of `"@ + spec_token_name(expected) + "` to "@ + spec_access_lexeme(found)
        + " failed `"@ + msg + "`"@
}

/// What `consume` does: step past the token under the cursor when it has
/// the expected kind, and fail otherwise.
pub open spec fn sp_consume(ts: Seq<TokenM>, i: nat, expected: TokenType, msg: Seq<char>) -> Result<
    (TokenM, nat),
    LErrM,
> {
    match spec_peek(ts, i) {
        Result::Err(e) => Result::Err(e),
        Result::Ok(t) => {
            if t.kind != TokenType::EOF && t.kind == expected {
                Result::Ok((t, i + 1))
            } else {
                Result::Err(
                    LErrM { kind: ErrM::Error(consume_error_text(expected, t, msg)), line: t.line },
                )
            }
        },
    }
}

/// The error value of a cursor that did not move forward. The parser
/// methods' contracts show the cursor only moves forward, so this value is
/// never yielded; it only discharges the termination check of the mutually
/// recursive grammar functions.
pub open spec fn stuck_cursor_error(i: nat) -> LErrM {
    LErrM { kind: ErrM::Error("parser made no progress"@), line: i }
}

/// primary := NUMBER | STRING | "true" | "false" | "(" expression ")"
pub open spec fn sp_primary(ts: Seq<TokenM>, i: nat) -> Result<(ExpM, nat), LErrM>
    decreases ts.len() - i, 0int,
{
    match spec_peek(ts, i) {
        Result::Err(e) => Result::Err(e),
        Result::Ok(t) => match t.kind {
            TokenType::True => Result::Ok((ExpM::Literal(LitM::Bool(true)), (i + 1) as nat)),
            TokenType::False => Result::Ok((ExpM::Literal(LitM::Bool(false)), (i + 1) as nat)),
            TokenType::Number => match spec_new_number(t) {
                Result::Ok(l) => Result::Ok((ExpM::Literal(l), (i + 1) as nat)),
                Result::Err(e) => Result::Err(e),
            },
            TokenType::String => Result::Ok(
                (ExpM::Literal(LitM::Str(spec_access_lexeme(t))), (i + 1) as nat),
            ),
            TokenType::LeftBracket => match sp_equality(ts, (i + 1) as nat) {
                Result::Err(e) => Result::Err(e),
                Result::Ok((inner, j)) => match sp_consume(
                    ts,
                    j,
                    TokenType::RightBracket,
                    "Expected a `)` after expression."@,
                ) {
                    Result::Err(e) => Result::Err(e),
                    Result::Ok((_, k)) => Result::Ok((ExpM::Grouping(Box::new(inner)), k)),
                },
            },
            _ => Result::Err(
                LErrM { kind: ErrM::ExpressionExpected(spec_access_lexeme(t)), line: t.line },
            ),
        },
    }
}

/// unary := ("-" | "!") unary | primary
pub open spec fn sp_unary(ts: Seq<TokenM>, i: nat) -> Result<(ExpM, nat), LErrM>
    decreases ts.len() - i, 1int,
{
    match spec_peek(ts, i) {
        Result::Err(e) => Result::Err(e),
        Result::Ok(t) => {
            if t.kind == TokenType::Minus || t.kind == TokenType::Bang {
                match sp_unary(ts, (i + 1) as nat) {
                    Result::Err(e) => Result::Err(e),
                    Result::Ok((e, j)) => Result::Ok(
                        (ExpM::Unary { op: t, expr: Box::new(e) }, j),
                    ),
                }
            } else {
                sp_primary(ts, i)
            }
        },
    }
}

/// The left fold of factor: as long as a `/` or `*` follows, apply it to the
/// expression built so far.
pub open spec fn sp_factor_loop(ts: Seq<TokenM>, i: nat, acc: ExpM) -> Result<(ExpM, nat), LErrM>
    decreases ts.len() - i, 2int,
{
    match spec_peek(ts, i) {
        Result::Err(e) => Result::Err(e),
        Result::Ok(t) => {
            if t.kind == TokenType::Slash || t.kind == TokenType::Star {
                match sp_unary(ts, (i + 1) as nat) {
                    Result::Err(e) => Result::Err(e),
                    Result::Ok((r, k)) => {
                        if i + 1 <= k <= ts.len() {
                            sp_factor_loop(
                                ts,
                                k,
                                ExpM::Binary { op: t, left: Box::new(acc), right: Box::new(r) },
                            )
                        } else {
                            Result::Err(stuck_cursor_error(k))
                        }
                    },
                }
            } else {
                Result::Ok((acc, i))
            }
        },
    }
}

/// factor := unary ( ("/" | "*") unary )*
pub open spec fn sp_factor(ts: Seq<TokenM>, i: nat) -> Result<(ExpM, nat), LErrM>
    decreases ts.len() - i, 3int,
{
    match sp_unary(ts, i) {
        Result::Err(e) => Result::Err(e),
        Result::Ok((e, j)) => {
            if i <= j <= ts.len() {
                sp_factor_loop(ts, j, e)
            } else {
                Result::Err(stuck_cursor_error(j))
            }
        },
    }
}

/// The left fold of term: as long as a `+` or `-` follows, apply it to the
/// expression built so far.
pub open spec fn sp_term_loop(ts: Seq<TokenM>, i: nat, acc: ExpM) -> Result<(ExpM, nat), LErrM>
    decreases ts.len() - i, 4int,
{
    match spec_peek(ts, i) {
        Result::Err(e) => Result::Err(e),
        Result::Ok(t) => {
            if t.kind == TokenType::Plus || t.kind == TokenType::Minus {
                match sp_factor(ts, (i + 1) as nat) {
                    Result::Err(e) => Result::Err(e),
                    Result::Ok((r, k)) => {
                        if i + 1 <= k <= ts.len() {
                            sp_term_loop(
                                ts,
                                k,
                                ExpM::Binary { op: t, left: Box::new(acc), right: Box::new(r) },
                            )
                        } else {
                            Result::Err(stuck_cursor_error(k))
                        }
                    },
                }
            } else {
                Result::Ok((acc, i))
            }
        },
    }
}

/// term := factor ( ("+" | "-") factor )*
pub open spec fn sp_term(ts: Seq<TokenM>, i: nat) -> Result<(ExpM, nat), LErrM>
    decreases ts.len() - i, 5int,
{
    match sp_factor(ts, i) {
        Result::Err(e) => Result::Err(e),
        Result::Ok((e, j)) => {
            if i <= j <= ts.len() {
                sp_term_loop(ts, j, e)
            } else {
                Result::Err(stuck_cursor_error(j))
            }
        },
    }
}

/// comparison := term ( ("<" | "<=" | ">" | ">=") term )?  — the operator is
/// applied at most once at this level.
pub open spec fn sp_comparison(ts: Seq<TokenM>, i: nat) -> Result<(ExpM, nat), LErrM>
    decreases ts.len() - i, 6int,
{
    match sp_term(ts, i) {
        Result::Err(e) => Result::Err(e),
        Result::Ok((e, j)) => match spec_peek(ts, j) {
            Result::Err(pe) => Result::Err(pe),
            Result::Ok(t) => {
                if t.kind == TokenType::LessThan || t.kind == TokenType::LessEquals || t.kind
                    == TokenType::GreaterThan || t.kind == TokenType::GreaterEquals {
                    if i <= j {
                        match sp_term(ts, (j + 1) as nat) {
                            Result::Err(e2) => Result::Err(e2),
                            Result::Ok((r, k)) => Result::Ok(
                                (ExpM::Binary { op: t, left: Box::new(e), right: Box::new(r) }, k),
                            ),
                        }
                    } else {
                        Result::Err(stuck_cursor_error(j))
                    }
                } else {
                    Result::Ok((e, j))
                }
            },
        },
    }
}

/// equality := comparison ( ("!=" | "==") comparison )?  — the operator is
/// applied at most once at this level.
pub open spec fn sp_equality(ts: Seq<TokenM>, i: nat) -> Result<(ExpM, nat), LErrM>
    decreases ts.len() - i, 7int,
{
    match sp_comparison(ts, i) {
        Result::Err(e) => Result::Err(e),
        Result::Ok((e, j)) => match spec_peek(ts, j) {
            Result::Err(pe) => Result::Err(pe),
            Result::Ok(t) => {
                if t.kind == TokenType::BangEquals || t.kind == TokenType::DoubleEquals {
                    if i <= j {
                        match sp_comparison(ts, (j + 1) as nat) {
                            Result::Err(e2) => Result::Err(e2),
                            Result::Ok((r, k)) => Result::Ok(
                                (ExpM::Binary { op: t, left: Box::new(e), right: Box::new(r) }, k),
                            ),
                        }
                    } else {
                        Result::Err(stuck_cursor_error(j))
                    }
                } else {
                    Result::Ok((e, j))
                }
            },
        },
    }
}

/// expression := equality
pub open spec fn sp_expression(ts: Seq<TokenM>, i: nat) -> Result<(ExpM, nat), LErrM> {
    sp_equality(ts, i)
}

/// print_statement := expression ";"  — after the `print` keyword.
pub open spec fn sp_print_statement(ts: Seq<TokenM>, i: nat) -> Result<(StmtM, nat), LErrM> {
    match sp_expression(ts, i) {
        Result::Err(e) => Result::Err(e),
        Result::Ok((e, j)) => match sp_consume(
            ts,
            j,
            TokenType::Semicolon,
            "Expected a `;` after value."@,
        ) {
            Result::Err(ce) => Result::Err(ce),
            Result::Ok((_, k)) => Result::Ok((StmtM::Print(e), k)),
        },
    }
}

/// expression_statement := expression ";"
pub open spec fn sp_expression_statement(ts: Seq<TokenM>, i: nat) -> Result<(StmtM, nat), LErrM> {
    match sp_expression(ts, i) {
        Result::Err(e) => Result::Err(e),
        Result::Ok((e, j)) => match sp_consume(
            ts,
            j,
            TokenType::Semicolon,
            "Expected a `;` after value."@,
        ) {
            Result::Err(ce) => Result::Err(ce),
            Result::Ok((_, k)) => Result::Ok((StmtM::Expr(e), k)),
        },
    }
}

/// statement := "print" expression ";" | expression ";"
pub open spec fn sp_statement(ts: Seq<TokenM>, i: nat) -> Result<(StmtM, nat), LErrM> {
    match spec_peek(ts, i) {
        Result::Err(e) => Result::Err(e),
        Result::Ok(t) => {
            if t.kind == TokenType::Print {
                sp_print_statement(ts, (i + 1) as nat)
            } else {
                sp_expression_statement(ts, i)
            }
        },
    }
}

/// program := statement* EOF
pub open spec fn sp_program(ts: Seq<TokenM>, i: nat) -> Result<Seq<StmtM>, LErrM>
    decreases ts.len() - i,
{
    match spec_peek(ts, i) {
        Result::Err(e) => Result::Err(e),
        Result::Ok(t) => {
            if t.kind == TokenType::EOF {
                Result::Ok(Seq::<StmtM>::empty())
            } else {
                match sp_statement(ts, i) {
                    Result::Err(e) => Result::Err(e),
                    Result::Ok((st, j)) => {
                        if i < j <= ts.len() {
                            match sp_program(ts, j) {
                                Result::Err(e) => Result::Err(e),
                                Result::Ok(rest) => Result::Ok(seq![st] + rest),
                            }
                        } else {
                            Result::Err(stuck_cursor_error(j))
                        }
                    },
                }
            }
        },
    }
}

/// Statements already built, joined with the outcome of parsing the rest.
pub open spec fn stmts_join(done: Seq<StmtM>, rest: Result<Seq<StmtM>, LErrM>) -> Result<
    Seq<StmtM>,
    LErrM,
> {
    match rest {
        Result::Ok(sts) => Result::Ok(done + sts),
        Result::Err(e) => Result::Err(e),
    }
}

/// Parsing one more statement keeps the joined outcome of the whole program.
proof fn lemma_stmt_step(
    ts: Seq<TokenM>,
    c0: nat,
    done: Seq<StmtM>,
    st: StmtM,
    cur: nat,
    ncur: nat,
)
    requires
        sp_program(ts, c0) == stmts_join(done, sp_program(ts, cur)),
        sp_program(ts, cur) == (match sp_program(ts, ncur) {
            Result::Ok(rest) => Result::<Seq<StmtM>, LErrM>::Ok(seq![st] + rest),
            Result::Err(e) => Result::<Seq<StmtM>, LErrM>::Err(e),
        }),
    ensures
        sp_program(ts, c0) == stmts_join(done.push(st), sp_program(ts, ncur)),
{
    match sp_program(ts, ncur) {
        Result::Ok(rest) => {
            assert(done + (seq![st] + rest) =~= done.push(st) + rest);
        },
        Result::Err(_) => {},
    }
}

/// The parser: the token sequence and a cursor into it.
pub struct Parser {
    pub tokens: Vec<Token>,
    pub cursor: usize,
}

impl Parser {
    /// A parser at the start of the given token sequence.
    pub fn new(tokens: Vec<Token>) -> (p: Parser)
        ensures
            p.tokens == tokens,
            p.cursor == 0,
    {
        Parser { tokens, cursor: 0 }
    }

    /// The tokens this parser reads.
    pub fn _get_tokens(&self) -> (r: Vec<Token>)
        ensures
            r.deep_view() == self.tokens.deep_view(),
    {
        let mut v: Vec<Token> = Vec::new();
        let mut i: usize = 0;
        while i < self.tokens.len()
            invariant
                i <= self.tokens@.len(),
                v.deep_view() == self.tokens.deep_view().take(i as int),
            decreases self.tokens@.len() - i,
        {
            let t = self.tokens[i].clone();
            assert(t@ == self.tokens.deep_view()[i as int]);
            let ghost pre = v@;
            let ghost predeep = v.deep_view();
            v.push(t);
            i = i + 1;
            proof {
                assert(predeep == self.tokens.deep_view().take(i - 1));
                assert(predeep.len() == i - 1);
                assert(pre.len() == i - 1);
                assert(v@.len() == i);
                assert forall|k: int| 0 <= k < v@.len() implies v.deep_view()[k]
                    == self.tokens.deep_view().take(i as int)[k] by {
                    assert(self.tokens.deep_view().len() == self.tokens@.len());
                    assert(v.deep_view()[k] == v@[k].deep_view());
                    if k < pre.len() {
                        assert(v@[k] == pre[k]);
                        assert(predeep[k] == pre[k].deep_view());
                        assert(predeep[k] == self.tokens.deep_view().take(i - 1)[k]);
                    } else {
                        assert(v@[k] == t);
                    }
                }
                assert(v.deep_view() =~= self.tokens.deep_view().take(i as int));
            }
        }
        assert(self.tokens.deep_view().take(self.tokens@.len() as int) =~= self.tokens.deep_view());
        v
    }

    /// The token under the cursor.
    fn peek(&self) -> (r: Result<&Token, LunalaErrors>)
        ensures
            match r {
                Result::Ok(t) => spec_peek(self.tokens.deep_view(), self.cursor as nat)
                    == Result::<TokenM, LErrM>::Ok(t@),
                Result::Err(e) => spec_peek(self.tokens.deep_view(), self.cursor as nat) matches
                    Result::Err(em) && e@ == em,
            },
    {
        proof {
            assert(self.tokens.deep_view().len() == self.tokens@.len());
        }
        if self.cursor < self.tokens.len() {
            let t = &self.tokens[self.cursor];
            assert(t@ == self.tokens.deep_view()[self.cursor as int]);
            Result::Ok(t)
        } else {
            Result::Err(
                LunalaErrors::new(
                    ErrorTypes::InvalidToken(String::from_str("No token at cursor")),
                    self.cursor,
                ),
            )
        }
    }

    /// The token just before the cursor.
    fn previous(&self) -> (r: Result<&Token, LunalaErrors>)
        ensures
            match r {
                Result::Ok(t) => spec_previous(self.tokens.deep_view(), self.cursor as nat)
                    == Result::<TokenM, LErrM>::Ok(t@),
                Result::Err(e) => spec_previous(self.tokens.deep_view(), self.cursor as nat)
                    matches Result::Err(em) && e@ == em,
            },
    {
        proof {
            assert(self.tokens.deep_view().len() == self.tokens@.len());
        }
        if self.cursor == 0 {
            return Result::Err(LunalaErrors::new(ErrorTypes::NoPreviousItem(0), 0));
        }
        if self.cursor - 1 < self.tokens.len() {
            let t = &self.tokens[self.cursor - 1];
            assert(t@ == self.tokens.deep_view()[self.cursor - 1]);
            Result::Ok(t)
        } else {
            Result::Err(
                LunalaErrors::new(ErrorTypes::NoPreviousItem(self.cursor - 1), self.cursor),
            )
        }
    }

    /// Whether the cursor stands on the end-of-input token.
    fn at_end(&self) -> (r: Result<bool, LunalaErrors>)
        ensures
            match r {
                Result::Ok(b) => spec_peek(self.tokens.deep_view(), self.cursor as nat) matches
                    Result::Ok(t) && b == (t.kind == TokenType::EOF),
                Result::Err(e) => spec_peek(self.tokens.deep_view(), self.cursor as nat) matches
                    Result::Err(em) && e@ == em,
            },
    {
        match self.peek() {
            Result::Err(e) => Result::Err(e),
            Result::Ok(t) => Result::Ok(t.token_type() == TokenType::EOF),
        }
    }

    /// Whether the cursor stands on a token of the given kind, the
    /// end-of-input token never matching.
    fn check(&self, token_type: TokenType) -> (r: Result<bool, LunalaErrors>)
        ensures
            match r {
                Result::Ok(b) => spec_peek(self.tokens.deep_view(), self.cursor as nat) matches
                    Result::Ok(t) && b == (t.kind != TokenType::EOF && t.kind == token_type),
                Result::Err(e) => spec_peek(self.tokens.deep_view(), self.cursor as nat) matches
                    Result::Err(em) && e@ == em,
            },
    {
        match self.at_end() {
            Result::Err(e) => Result::Err(e),
            Result::Ok(true) => Result::Ok(false),
            Result::Ok(false) => match self.peek() {
                Result::Err(e) => Result::Err(e),
                Result::Ok(t) => Result::Ok(t.token_type() == token_type),
            },
        }
    }

    /// Step past the token under the cursor, unless it is the end-of-input
    /// token, and yield the token just consumed.
    fn advance(&mut self) -> (r: Result<&Token, LunalaErrors>)
        ensures
            final(self).tokens == old(self).tokens,
            old(self).cursor <= final(self).cursor,
            match r {
                Result::Ok(t) => sp_advance(old(self).tokens.deep_view(), old(self).cursor as nat)
                    == Result::<(TokenM, nat), LErrM>::Ok((t@, final(self).cursor as nat))
                    && final(self).cursor <= old(self).tokens@.len(),
                Result::Err(e) => sp_advance(
                    old(self).tokens.deep_view(),
                    old(self).cursor as nat,
                ) matches Result::Err(em) && e@ == em && final(self).cursor == old(self).cursor,
            },
    {
        proof {
            assert(self.tokens.deep_view().len() == self.tokens@.len());
        }
        match self.at_end() {
            Result::Err(e) => {
                return Result::Err(e);
            },
            Result::Ok(b) => {
                if !b && self.cursor < self.tokens.len() {
                    self.cursor = self.cursor + 1;
                }
            },
        }
        self.previous()
    }

    /// Step past the token under the cursor when it has the expected kind,
    /// and fail with a grammar-consumption error otherwise.
    fn consume(&mut self, token_type: TokenType, message: &str) -> (r: Result<
        &Token,
        LunalaErrors,
    >)
        ensures
            final(self).tokens == old(self).tokens,
            old(self).cursor <= final(self).cursor,
            r is Err ==> final(self).cursor == old(self).cursor,
            match r {
                Result::Ok(t) => sp_consume(
                    old(self).tokens.deep_view(),
                    old(self).cursor as nat,
                    token_type,
                    message@,
                ) == Result::<(TokenM, nat), LErrM>::Ok((t@, final(self).cursor as nat))
                    && final(self).cursor <= old(self).tokens@.len(),
                Result::Err(e) => sp_consume(
                    old(self).tokens.deep_view(),
                    old(self).cursor as nat,
                    token_type,
                    message@,
                ) matches Result::Err(em) && e@ == em,
            },
    {
        match self.check(token_type) {
            Result::Err(e) => {
                return Result::Err(e);
            },
            Result::Ok(true) => {
                return self.advance();
            },
            Result::Ok(false) => {},
        }
        match self.peek() {
            Result::Err(e) => {
                proof {
                    assert(false);
                }
                Result::Err(e)
            },
            Result::Ok(found) => {
                let line = found.line;
                let lexeme = found.access_lexeme();
                let mut msg = String::from_str("Consume of `");
                let name = token_type.map();
                msg.append(name.as_str());
                msg.append("` to ");
                msg.append(lexeme.as_str());
                msg.append(" failed `");
                msg.append(message);
                msg.append("`");
                Result::Err(LunalaErrors::new(ErrorTypes::Error(msg), line))
            },
        }
    }

    fn primary(&mut self) -> (r: Result<ExpType, LunalaErrors>)
        requires
            old(self).cursor <= old(self).tokens@.len(),
        ensures
            final(self).tokens == old(self).tokens,
            old(self).cursor <= final(self).cursor,
            !(spec_peek(old(self).tokens.deep_view(), old(self).cursor as nat) matches Result::Ok(
                t,
            ) && (t.kind == TokenType::True || t.kind == TokenType::False || t.kind
                == TokenType::Number || t.kind == TokenType::String || t.kind
                == TokenType::LeftBracket)) ==> final(self).cursor == old(self).cursor,
            match r {
                Result::Ok(e) => sp_primary(old(self).tokens.deep_view(), old(self).cursor as nat)
                    == Result::<(ExpM, nat), LErrM>::Ok((e@, final(self).cursor as nat))
                    && final(self).cursor <= old(self).tokens@.len(),
                Result::Err(x) => sp_primary(
                    old(self).tokens.deep_view(),
                    old(self).cursor as nat,
                ) matches Result::Err(em) && x@ == em,
            },
        decreases self.tokens@.len() - self.cursor, 0int,
    {
        let kind: TokenType;
        let lex: String;
        let line: usize;
        match self.peek() {
            Result::Err(e) => {
                return Result::Err(e);
            },
            Result::Ok(t) => {
                kind = t.token_type();
                lex = t.access_lexeme();
                line = t.line;
            },
        }
        match kind {
            TokenType::True => {
                self.advance()?;
                Result::Ok(ExpType::Literal(Literal::Bool(true)))
            },
            TokenType::False => {
                self.advance()?;
                Result::Ok(ExpType::Literal(Literal::Bool(false)))
            },
            TokenType::Number => {
                self.advance()?;
                let lit = Literal::new_number(self.previous()?)?;
                Result::Ok(ExpType::Literal(lit))
            },
            TokenType::String => {
                self.advance()?;
                let text = self.previous()?.access_lexeme();
                Result::Ok(ExpType::Literal(Literal::String(text)))
            },
            TokenType::LeftBracket => {
                self.advance()?;
                let expression = self.expression()?;
                self.consume(TokenType::RightBracket, "Expected a `)` after expression.")?;
                Result::Ok(ExpType::Grouping { expression: Box::new(expression) })
            },
            _ => Result::Err(LunalaErrors::new(ErrorTypes::ExpressionExpected(lex), line)),
        }
    }

    fn unary(&mut self) -> (r: Result<ExpType, LunalaErrors>)
        requires
            old(self).cursor <= old(self).tokens@.len(),
        ensures
            final(self).tokens == old(self).tokens,
            old(self).cursor <= final(self).cursor,
            match r {
                Result::Ok(e) => sp_unary(old(self).tokens.deep_view(), old(self).cursor as nat)
                    == Result::<(ExpM, nat), LErrM>::Ok((e@, final(self).cursor as nat))
                    && final(self).cursor <= old(self).tokens@.len(),
                Result::Err(x) => sp_unary(
                    old(self).tokens.deep_view(),
                    old(self).cursor as nat,
                ) matches Result::Err(em) && x@ == em,
            },
        decreases self.tokens@.len() - self.cursor, 1int,
    {
        let kind = match self.peek() {
            Result::Err(e) => {
                return Result::Err(e);
            },
            Result::Ok(t) => t.token_type(),
        };
        if kind == TokenType::Minus || kind == TokenType::Bang {
            self.advance()?;
            let operator = self.previous()?.clone();
            let expression = self.unary()?;
            Result::Ok(ExpType::Unary { operator, expression: Box::new(expression) })
        } else {
            self.primary()
        }
    }

    #[verifier::loop_isolation(false)]
    fn factor(&mut self) -> (r: Result<ExpType, LunalaErrors>)
        requires
            old(self).cursor <= old(self).tokens@.len(),
        ensures
            final(self).tokens == old(self).tokens,
            old(self).cursor <= final(self).cursor,
            match r {
                Result::Ok(e) => sp_factor(old(self).tokens.deep_view(), old(self).cursor as nat)
                    == Result::<(ExpM, nat), LErrM>::Ok((e@, final(self).cursor as nat))
                    && final(self).cursor <= old(self).tokens@.len(),
                Result::Err(x) => sp_factor(
                    old(self).tokens.deep_view(),
                    old(self).cursor as nat,
                ) matches Result::Err(em) && x@ == em,
            },
        decreases self.tokens@.len() - self.cursor, 2int,
    {
        let mut expression = self.unary()?;
        let mut done = false;
        while !done
            invariant
                self.tokens == old(self).tokens,
                old(self).cursor <= self.cursor <= self.tokens@.len(),
                !done ==> sp_factor(old(self).tokens.deep_view(), old(self).cursor as nat)
                    == sp_factor_loop(self.tokens.deep_view(), self.cursor as nat, expression@),
                done ==> sp_factor(old(self).tokens.deep_view(), old(self).cursor as nat)
                    == Result::<(ExpM, nat), LErrM>::Ok((expression@, self.cursor as nat)),
            decreases self.tokens@.len() - self.cursor, (if done { 0int } else { 1int }),
        {
            let kind = match self.peek() {
                Result::Err(e) => {
                    return Result::Err(e);
                },
                Result::Ok(t) => t.token_type(),
            };
            if kind == TokenType::Slash || kind == TokenType::Star {
                self.advance()?;
                let operator = self.previous()?.clone();
                let right = self.unary()?;
                expression = ExpType::Binary {
                    operator,
                    left: Box::new(expression),
                    right: Box::new(right),
                };
            } else {
                done = true;
            }
        }
        Result::Ok(expression)
    }

    #[verifier::loop_isolation(false)]
    fn term(&mut self) -> (r: Result<ExpType, LunalaErrors>)
        requires
            old(self).cursor <= old(self).tokens@.len(),
        ensures
            final(self).tokens == old(self).tokens,
            old(self).cursor <= final(self).cursor,
            match r {
                Result::Ok(e) => sp_term(old(self).tokens.deep_view(), old(self).cursor as nat)
                    == Result::<(ExpM, nat), LErrM>::Ok((e@, final(self).cursor as nat))
                    && final(self).cursor <= old(self).tokens@.len(),
                Result::Err(x) => sp_term(
                    old(self).tokens.deep_view(),
                    old(self).cursor as nat,
                ) matches Result::Err(em) && x@ == em,
            },
        decreases self.tokens@.len() - self.cursor, 3int,
    {
        let mut expression = self.factor()?;
        let mut done = false;
        while !done
            invariant
                self.tokens == old(self).tokens,
                old(self).cursor <= self.cursor <= self.tokens@.len(),
                !done ==> sp_term(old(self).tokens.deep_view(), old(self).cursor as nat)
                    == sp_term_loop(self.tokens.deep_view(), self.cursor as nat, expression@),
                done ==> sp_term(old(self).tokens.deep_view(), old(self).cursor as nat)
                    == Result::<(ExpM, nat), LErrM>::Ok((expression@, self.cursor as nat)),
            decreases self.tokens@.len() - self.cursor, (if done { 0int } else { 1int }),
        {
            let kind = match self.peek() {
                Result::Err(e) => {
                    return Result::Err(e);
                },
                Result::Ok(t) => t.token_type(),
            };
            if kind == TokenType::Plus || kind == TokenType::Minus {
                self.advance()?;
                let operator = self.previous()?.clone();
                let right = self.factor()?;
                expression = ExpType::Binary {
                    operator,
                    left: Box::new(expression),
                    right: Box::new(right),
                };
            } else {
                done = true;
            }
        }
        Result::Ok(expression)
    }

    fn comparison(&mut self) -> (r: Result<ExpType, LunalaErrors>)
        requires
            old(self).cursor <= old(self).tokens@.len(),
        ensures
            final(self).tokens == old(self).tokens,
            old(self).cursor <= final(self).cursor,
            match r {
                Result::Ok(e) => sp_comparison(
                    old(self).tokens.deep_view(),
                    old(self).cursor as nat,
                ) == Result::<(ExpM, nat), LErrM>::Ok((e@, final(self).cursor as nat))
                    && final(self).cursor <= old(self).tokens@.len(),
                Result::Err(x) => sp_comparison(
                    old(self).tokens.deep_view(),
                    old(self).cursor as nat,
                ) matches Result::Err(em) && x@ == em,
            },
        decreases self.tokens@.len() - self.cursor, 4int,
    {
        let expression = self.term()?;
        let kind = match self.peek() {
            Result::Err(e) => {
                return Result::Err(e);
            },
            Result::Ok(t) => t.token_type(),
        };
        if kind == TokenType::LessThan || kind == TokenType::LessEquals || kind
            == TokenType::GreaterThan || kind == TokenType::GreaterEquals {
            self.advance()?;
            let operator = self.previous()?.clone();
            let right = Box::new(self.term()?);
            return Result::Ok(ExpType::Binary { operator, right, left: Box::new(expression) });
        }
        Result::Ok(expression)
    }

    #[verifier::rlimit(60)]
    fn equality(&mut self) -> (r: Result<ExpType, LunalaErrors>)
        requires
            old(self).cursor <= old(self).tokens@.len(),
        ensures
            final(self).tokens == old(self).tokens,
            old(self).cursor <= final(self).cursor,
            match r {
                Result::Ok(e) => sp_equality(old(self).tokens.deep_view(), old(self).cursor as nat)
                    == Result::<(ExpM, nat), LErrM>::Ok((e@, final(self).cursor as nat))
                    && final(self).cursor <= old(self).tokens@.len(),
                Result::Err(x) => sp_equality(
                    old(self).tokens.deep_view(),
                    old(self).cursor as nat,
                ) matches Result::Err(em) && x@ == em,
            },
        decreases self.tokens@.len() - self.cursor, 5int,
    {
        let expression = self.comparison()?;
        let kind = match self.peek() {
            Result::Err(e) => {
                return Result::Err(e);
            },
            Result::Ok(t) => t.token_type(),
        };
        if kind == TokenType::BangEquals || kind == TokenType::DoubleEquals {
            self.advance()?;
            let operator = self.previous()?.clone();
            let right = Box::new(self.comparison()?);
            return Result::Ok(ExpType::Binary { operator, right, left: Box::new(expression) });
        }
        Result::Ok(expression)
    }

    fn expression(&mut self) -> (r: Result<ExpType, LunalaErrors>)
        requires
            old(self).cursor <= old(self).tokens@.len(),
        ensures
            final(self).tokens == old(self).tokens,
            old(self).cursor <= final(self).cursor,
            match r {
                Result::Ok(e) => sp_expression(
                    old(self).tokens.deep_view(),
                    old(self).cursor as nat,
                ) == Result::<(ExpM, nat), LErrM>::Ok((e@, final(self).cursor as nat))
                    && final(self).cursor <= old(self).tokens@.len(),
                Result::Err(x) => sp_expression(
                    old(self).tokens.deep_view(),
                    old(self).cursor as nat,
                ) matches Result::Err(em) && x@ == em,
            },
        decreases self.tokens@.len() - self.cursor, 6int,
    {
        self.equality()
    }

    fn print_statement(&mut self) -> (r: Result<Statement, LunalaErrors>)
        requires
            old(self).cursor <= old(self).tokens@.len(),
        ensures
            final(self).tokens == old(self).tokens,
            old(self).cursor <= final(self).cursor,
            match r {
                Result::Ok(st) => sp_print_statement(
                    old(self).tokens.deep_view(),
                    old(self).cursor as nat,
                ) == Result::<(StmtM, nat), LErrM>::Ok((st@, final(self).cursor as nat))
                    && final(self).cursor <= old(self).tokens@.len() && old(self).cursor < final(self).cursor,
                Result::Err(x) => sp_print_statement(
                    old(self).tokens.deep_view(),
                    old(self).cursor as nat,
                ) matches Result::Err(em) && x@ == em,
            },
        decreases self.tokens@.len() - self.cursor, 7int,
    {
        let expression = self.expression()?;
        self.consume(TokenType::Semicolon, "Expected a `;` after value.")?;
        Result::Ok(Statement::Print(Statement::new_print(expression)))
    }

    fn expression_statement(&mut self) -> (r: Result<Statement, LunalaErrors>)
        requires
            old(self).cursor <= old(self).tokens@.len(),
        ensures
            final(self).tokens == old(self).tokens,
            old(self).cursor <= final(self).cursor,
            match r {
                Result::Ok(st) => sp_expression_statement(
                    old(self).tokens.deep_view(),
                    old(self).cursor as nat,
                ) == Result::<(StmtM, nat), LErrM>::Ok((st@, final(self).cursor as nat))
                    && final(self).cursor <= old(self).tokens@.len() && old(self).cursor < final(self).cursor,
                Result::Err(x) => sp_expression_statement(
                    old(self).tokens.deep_view(),
                    old(self).cursor as nat,
                ) matches Result::Err(em) && x@ == em,
            },
        decreases self.tokens@.len() - self.cursor, 7int,
    {
        let expression = self.expression()?;
        self.consume(TokenType::Semicolon, "Expected a `;` after value.")?;
        Result::Ok(Statement::Expression(Statement::new_expression(expression)))
    }

    fn statement(&mut self) -> (r: Result<Statement, LunalaErrors>)
        requires
            old(self).cursor <= old(self).tokens@.len(),
        ensures
            final(self).tokens == old(self).tokens,
            old(self).cursor <= final(self).cursor,
            match r {
                Result::Ok(st) => sp_statement(old(self).tokens.deep_view(), old(self).cursor as nat)
                    == Result::<(StmtM, nat), LErrM>::Ok((st@, final(self).cursor as nat))
                    && final(self).cursor <= old(self).tokens@.len() && old(self).cursor < final(self).cursor,
                Result::Err(x) => sp_statement(
                    old(self).tokens.deep_view(),
                    old(self).cursor as nat,
                ) matches Result::Err(em) && x@ == em,
            },
        decreases self.tokens@.len() - self.cursor, 8int,
    {
        let kind = match self.peek() {
            Result::Err(e) => {
                return Result::Err(e);
            },
            Result::Ok(t) => t.token_type(),
        };
        if kind == TokenType::Print {
            self.advance()?;
            self.print_statement()
        } else {
            self.expression_statement()
        }
    }

    /// Parse the whole token sequence into the program's statements, or
    /// stop at the first syntax error. Implements `sp_program` from the
    /// parser's current position.
    #[verifier::loop_isolation(false)]
    pub fn parse(&mut self) -> (r: Result<Statements, LunalaErrors>)
        ensures
            final(self).tokens == old(self).tokens,
            match r {
                Result::Ok(v) => sp_program(old(self).tokens.deep_view(), old(self).cursor as nat)
                    matches Result::Ok(sts) && v.deep_view() == sts,
                Result::Err(e) => sp_program(
                    old(self).tokens.deep_view(),
                    old(self).cursor as nat,
                ) matches Result::Err(em) && e@ == em,
            },
    {
        let mut statements: Vec<Statement> = Vec::new();
        proof {
            assert(statements.deep_view() =~= Seq::<StmtM>::empty());
            match sp_program(old(self).tokens.deep_view(), old(self).cursor as nat) {
                Result::Ok(sts) => {
                    assert(Seq::<StmtM>::empty() + sts =~= sts);
                },
                Result::Err(_) => {},
            }
        }
        let mut done = false;
        while !done
            invariant
                self.tokens == old(self).tokens,
                old(self).cursor <= self.cursor,
                !done ==> sp_program(old(self).tokens.deep_view(), old(self).cursor as nat)
                    == stmts_join(
                    statements.deep_view(),
                    sp_program(self.tokens.deep_view(), self.cursor as nat),
                ),
                done ==> (sp_program(old(self).tokens.deep_view(), old(self).cursor as nat)
                    matches Result::Ok(sts) && statements.deep_view() == sts),
            decreases self.tokens@.len() - self.cursor, (if done { 0int } else { 1int }),
        {
            let ghost cur_it = self.cursor as nat;
            let keep_going = match self.at_end() {
                Result::Err(e) => {
                    return Result::Err(e);
                },
                Result::Ok(true) => {
                    proof {
                        match sp_program(
                            old(self).tokens.deep_view(),
                            old(self).cursor as nat,
                        ) {
                            Result::Ok(sts) => {
                                assert(statements.deep_view() + Seq::<StmtM>::empty()
                                    =~= statements.deep_view());
                            },
                            Result::Err(_) => {},
                        }
                    }
                    done = true;
                    false
                },
                Result::Ok(false) => true,
            };
            if keep_going {
            let st = match self.statement() {
                Result::Err(e) => {
                    return Result::Err(e);
                },
                Result::Ok(st) => st,
            };
            let ghost pre = statements@;
            let ghost predeep = statements.deep_view();
            let ghost stm = st@;
            statements.push(st);
            proof {
                assert forall|k: int| 0 <= k < statements@.len() implies statements.deep_view()[k]
                    == predeep.push(stm)[k] by {
                    assert(statements.deep_view()[k] == statements@[k].deep_view());
                    if k < pre.len() {
                        assert(statements@[k] == pre[k]);
                        assert(predeep[k] == pre[k].deep_view());
                    }
                }
                assert(statements.deep_view().len() == statements@.len());
                assert(predeep.len() == pre.len());
                assert(statements.deep_view() =~= predeep.push(stm));
                lemma_stmt_step(
                    old(self).tokens.deep_view(),
                    old(self).cursor as nat,
                    predeep,
                    stm,
                    cur_it,
                    self.cursor as nat,
                );
            }
            }
        }
        Result::Ok(statements)
    }
}

} // verus!
