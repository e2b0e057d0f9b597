//! The printer/parser inverse law: rendering an expression to source text
//! and scanning and parsing that text yields the same expression again, up
//! to token line numbers. It holds of every expression the grammar itself
//! can produce: literals, unary applications, binary applications nested as
//! the grammar nests them, and groupings; `fits_equality` writes that class
//! down.
use crate::errors::LErrM;
use crate::expressions::{render_exp, render_lit, symbol_name, ExpM, LitM};
use crate::numbers::{is_digit_char, is_number_lexeme, parse_num};
use crate::parser::{
    sp_comparison, sp_equality, sp_expression, sp_factor, sp_factor_loop, sp_primary, sp_term,
    sp_term_loop, sp_unary,
};
use crate::numbers::all_digits;
use crate::scanner::{
    alnum_run_end, bare_token, digit_run_end, is_alnum_char, is_alpha_char, is_ws_char, lex,
    lex_cons, lex_from, lex_seq_join, newline_count, num_lexeme_end, quote_pos, text_token,
};
use crate::tokens::{keyword_of, spec_access_lexeme, TokenM, TokenType};
use vstd::prelude::*;

verus! {

/// The height of an expression tree; the spine walks below need it as a
/// termination measure.
pub open spec fn exp_height(e: ExpM) -> nat
    decreases e,
{
    match e {
        ExpM::Literal(_) => 0,
        ExpM::Unary { expr, .. } => exp_height(*expr) + 1,
        ExpM::Binary { left, right, .. } => 1 + if exp_height(*left) >= exp_height(*right) {
            exp_height(*left)
        } else {
            exp_height(*right)
        },
        ExpM::Grouping(inner) => exp_height(*inner) + 1,
    }
}

/// A literal whose rendering scans back to itself: a number written as a
/// well-shaped lexeme denoting its own value, a boolean, or a string
/// holding neither a quote nor a newline.
pub open spec fn lit_renderable(l: LitM) -> bool {
    match l {
        LitM::Number { value, text } => is_number_lexeme(text) && parse_num(text)
            == Result::<u64, Seq<char>>::Ok(value),
        LitM::Bool(_) => true,
        LitM::Str(s) => forall|i: int| 0 <= i < s.len() ==> s[i] != '"' && s[i] != '\n',
    }
}

/// An operator token as the parser makes it: the fixed spelling carries no
/// lexeme text.
pub open spec fn bare_op(t: TokenM) -> bool {
    t.text is None
}

/// What the `primary` level produces: a renderable literal or a grouping.
pub open spec fn fits_primary(e: ExpM) -> bool
    decreases exp_height(e), 0int,
{
    match e {
        ExpM::Literal(l) => lit_renderable(l),
        ExpM::Grouping(inner) => fits_equality(*inner),
        _ => false,
    }
}

/// What the `unary` level produces.
pub open spec fn fits_unary(e: ExpM) -> bool
    decreases exp_height(e), 1int,
{
    match e {
        ExpM::Unary { op, expr } => (op.kind == TokenType::Minus || op.kind == TokenType::Bang)
            && bare_op(op) && fits_unary(*expr),
        _ => fits_primary(e),
    }
}

/// What the `factor` level produces: a left fold of `/` and `*`.
pub open spec fn fits_factor(e: ExpM) -> bool
    decreases exp_height(e), 2int,
{
    match e {
        ExpM::Binary { op, left, right } => {
            if op.kind == TokenType::Slash || op.kind == TokenType::Star {
                bare_op(op) && fits_factor(*left) && fits_unary(*right)
            } else {
                false
            }
        },
        _ => fits_unary(e),
    }
}

/// What the `term` level produces: a left fold of `+` and `-` over factors.
pub open spec fn fits_term(e: ExpM) -> bool
    decreases exp_height(e), 3int,
{
    match e {
        ExpM::Binary { op, left, right } => {
            if op.kind == TokenType::Plus || op.kind == TokenType::Minus {
                bare_op(op) && fits_term(*left) && fits_factor(*right)
            } else {
                fits_factor(e)
            }
        },
        _ => fits_factor(e),
    }
}

/// What the `comparison` level produces: at most one ordering operator,
/// both sides at the term level.
pub open spec fn fits_comparison(e: ExpM) -> bool
    decreases exp_height(e), 4int,
{
    match e {
        ExpM::Binary { op, left, right } => {
            if op.kind == TokenType::LessThan || op.kind == TokenType::LessEquals || op.kind
                == TokenType::GreaterThan || op.kind == TokenType::GreaterEquals {
                bare_op(op) && fits_term(*left) && fits_term(*right)
            } else {
                fits_term(e)
            }
        },
        _ => fits_term(e),
    }
}

/// What the `equality` level — the whole expression grammar — produces: at
/// most one equality operator, both sides at the comparison level.
pub open spec fn fits_equality(e: ExpM) -> bool
    decreases exp_height(e), 5int,
{
    match e {
        ExpM::Binary { op, left, right } => {
            if op.kind == TokenType::BangEquals || op.kind == TokenType::DoubleEquals {
                bare_op(op) && fits_comparison(*left) && fits_comparison(*right)
            } else {
                fits_comparison(e)
            }
        },
        _ => fits_comparison(e),
    }
}

/// The expression with every token line set to 1, as reparsing one-line
/// rendered text yields it. Nothing else changes.
pub open spec fn lines1(e: ExpM) -> ExpM
    decreases e,
{
    match e {
        ExpM::Literal(l) => ExpM::Literal(l),
        ExpM::Unary { op, expr } => ExpM::Unary {
            op: TokenM { kind: op.kind, text: op.text, line: 1 },
            expr: Box::new(lines1(*expr)),
        },
        ExpM::Binary { op, left, right } => ExpM::Binary {
            op: TokenM { kind: op.kind, text: op.text, line: 1 },
            left: Box::new(lines1(*left)),
            right: Box::new(lines1(*right)),
        },
        ExpM::Grouping(inner) => ExpM::Grouping(Box::new(lines1(*inner))),
    }
}

/// The token the rendering of a literal scans to.
pub open spec fn lit_token(l: LitM) -> TokenM {
    match l {
        LitM::Number { text, .. } => text_token(TokenType::Number, text, 1),
        LitM::Bool(b) => if b {
            bare_token(TokenType::True, 1)
        } else {
            bare_token(TokenType::False, 1)
        },
        LitM::Str(s) => text_token(TokenType::String, s, 1),
    }
}

/// The token sequence the rendering of an expression scans to.
pub open spec fn rtokens(e: ExpM) -> Seq<TokenM>
    decreases e,
{
    match e {
        ExpM::Literal(l) => seq![lit_token(l)],
        ExpM::Unary { op, expr } => seq![bare_token(op.kind, 1)] + rtokens(*expr),
        ExpM::Binary { op, left, right } => rtokens(*left) + seq![bare_token(op.kind, 1)]
            + rtokens(*right),
        ExpM::Grouping(inner) => seq![bare_token(TokenType::LeftBracket, 1)] + rtokens(*inner)
            + seq![bare_token(TokenType::RightBracket, 1)],
    }
}

/// The rendered tokens of `e` stand in `ts` at position `i`, with at least
/// one token after them.
pub open spec fn laid_out(e: ExpM, ts: Seq<TokenM>, i: nat) -> bool {
    &&& i + rtokens(e).len() < ts.len()
    &&& ts.subrange(i as int, (i + rtokens(e).len()) as int) == rtokens(e)
}


/// Subsumption: what a higher-precedence level produces, every level above
/// it produces too.
proof fn lemma_fits_up(e: ExpM)
    ensures
        fits_primary(e) ==> fits_unary(e),
        fits_unary(e) ==> fits_factor(e),
        fits_factor(e) ==> fits_term(e),
        fits_term(e) ==> fits_comparison(e),
        fits_comparison(e) ==> fits_equality(e),
{
    match e {
        ExpM::Literal(_) => {},
        ExpM::Unary { .. } => {},
        ExpM::Binary { op, .. } => {
            assert(fits_primary(e) == false);
            assert(fits_unary(e) == false);
            if op.kind == TokenType::Slash || op.kind == TokenType::Star {
                assert(fits_term(e) == fits_factor(e));
                assert(fits_comparison(e) == fits_term(e));
                assert(fits_equality(e) == fits_comparison(e));
            } else if op.kind == TokenType::Plus || op.kind == TokenType::Minus {
                assert(fits_factor(e) == false);
                assert(fits_comparison(e) == fits_term(e));
                assert(fits_equality(e) == fits_comparison(e));
            } else if op.kind == TokenType::LessThan || op.kind == TokenType::LessEquals
                || op.kind == TokenType::GreaterThan || op.kind == TokenType::GreaterEquals {
                assert(fits_factor(e) == false);
                assert(fits_term(e) == false);
                assert(fits_equality(e) == fits_comparison(e));
            } else if op.kind == TokenType::BangEquals || op.kind == TokenType::DoubleEquals {
                assert(fits_factor(e) == false);
                assert(fits_term(e) == false);
                assert(fits_comparison(e) == false);
            } else {
                assert(fits_factor(e) == false);
                assert(fits_term(e) == false);
                assert(fits_comparison(e) == false);
                assert(fits_equality(e) == false);
            }
        },
        ExpM::Grouping(_) => {},
    }
}

/// The leftmost factor of a term-level spine of `+` and `-`.
pub open spec fn term_head(e: ExpM) -> ExpM
    decreases e,
{
    match e {
        ExpM::Binary { op, left, .. } => {
            if op.kind == TokenType::Plus || op.kind == TokenType::Minus {
                term_head(*left)
            } else {
                e
            }
        },
        _ => e,
    }
}

/// The operators and right operands of a term-level spine, leftmost first.
pub open spec fn term_items(e: ExpM) -> Seq<(TokenM, ExpM)>
    decreases e,
{
    match e {
        ExpM::Binary { op, left, right } => {
            if op.kind == TokenType::Plus || op.kind == TokenType::Minus {
                term_items(*left).push((op, *right))
            } else {
                Seq::<(TokenM, ExpM)>::empty()
            }
        },
        _ => Seq::<(TokenM, ExpM)>::empty(),
    }
}

/// The leftmost unary operand of a factor-level spine of `/` and `*`.
pub open spec fn factor_head(e: ExpM) -> ExpM
    decreases e,
{
    match e {
        ExpM::Binary { op, left, .. } => {
            if op.kind == TokenType::Slash || op.kind == TokenType::Star {
                factor_head(*left)
            } else {
                e
            }
        },
        _ => e,
    }
}

/// The operators and right operands of a factor-level spine, leftmost
/// first.
pub open spec fn factor_items(e: ExpM) -> Seq<(TokenM, ExpM)>
    decreases e,
{
    match e {
        ExpM::Binary { op, left, right } => {
            if op.kind == TokenType::Slash || op.kind == TokenType::Star {
                factor_items(*left).push((op, *right))
            } else {
                Seq::<(TokenM, ExpM)>::empty()
            }
        },
        _ => Seq::<(TokenM, ExpM)>::empty(),
    }
}

/// The rendered tokens of a spine's items, leftmost first.
pub open spec fn items_tokens(items: Seq<(TokenM, ExpM)>) -> Seq<TokenM>
    decreases items.len(),
{
    if items.len() == 0 {
        Seq::<TokenM>::empty()
    } else {
        (seq![bare_token(items[0].0.kind, 1)] + rtokens(items[0].1)) + items_tokens(
            items.skip(1),
        )
    }
}

/// The expression a level's loop builds from an initial accumulator and a
/// spine's items.
pub open spec fn fold_items(acc: ExpM, items: Seq<(TokenM, ExpM)>) -> ExpM
    decreases items.len(),
{
    if items.len() == 0 {
        acc
    } else {
        fold_items(
            ExpM::Binary {
                op: bare_token(items[0].0.kind, 1),
                left: Box::new(acc),
                right: Box::new(lines1(items[0].1)),
            },
            items.skip(1),
        )
    }
}

proof fn lemma_items_tokens_push(items: Seq<(TokenM, ExpM)>, x: (TokenM, ExpM))
    ensures
        items_tokens(items.push(x)) == items_tokens(items) + (seq![bare_token(x.0.kind, 1)]
            + rtokens(x.1)),
    decreases items.len(),
{
    if items.len() == 0 {
        assert(items.push(x).skip(1) =~= Seq::<(TokenM, ExpM)>::empty());
        assert(items.push(x)[0] == x);
        assert(items_tokens(items.push(x).skip(1)) =~= Seq::<TokenM>::empty());
        assert(items_tokens(items) =~= Seq::<TokenM>::empty());
        assert(items_tokens(items.push(x)) =~= items_tokens(items) + (seq![
            bare_token(x.0.kind, 1),
        ] + rtokens(x.1)));
    } else {
        assert(items.push(x)[0] == items[0]);
        assert(items.push(x).skip(1) =~= items.skip(1).push(x));
        lemma_items_tokens_push(items.skip(1), x);
        assert(items_tokens(items.push(x).skip(1)) == items_tokens(items.skip(1)) + (seq![
            bare_token(x.0.kind, 1),
        ] + rtokens(x.1)));
        assert(items_tokens(items.push(x)) == (seq![bare_token(items[0].0.kind, 1)] + rtokens(
            items[0].1,
        )) + items_tokens(items.push(x).skip(1)));
        assert(items_tokens(items) == (seq![bare_token(items[0].0.kind, 1)] + rtokens(items[0].1))
            + items_tokens(items.skip(1)));
        assert(items_tokens(items.push(x)) =~= items_tokens(items) + (seq![
            bare_token(x.0.kind, 1),
        ] + rtokens(x.1)));
    }
}

proof fn lemma_fold_items_push(acc: ExpM, items: Seq<(TokenM, ExpM)>, x: (TokenM, ExpM))
    ensures
        fold_items(acc, items.push(x)) == (ExpM::Binary {
            op: bare_token(x.0.kind, 1),
            left: Box::new(fold_items(acc, items)),
            right: Box::new(lines1(x.1)),
        }),
    decreases items.len(),
{
    if items.len() == 0 {
        assert(items.push(x).skip(1) =~= Seq::<(TokenM, ExpM)>::empty());
        assert(items.push(x)[0] == x);
        let b = ExpM::Binary {
            op: bare_token(x.0.kind, 1),
            left: Box::new(acc),
            right: Box::new(lines1(x.1)),
        };
        assert(fold_items(b, items.push(x).skip(1)) == b);
        assert(fold_items(acc, items) == acc);
    } else {
        assert(items.push(x)[0] == items[0]);
        assert(items.push(x).skip(1) =~= items.skip(1).push(x));
        let b0 = ExpM::Binary {
            op: bare_token(items[0].0.kind, 1),
            left: Box::new(acc),
            right: Box::new(lines1(items[0].1)),
        };
        assert(fold_items(acc, items.push(x)) == fold_items(b0, items.push(x).skip(1)));
        assert(fold_items(acc, items) == fold_items(b0, items.skip(1)));
        lemma_fold_items_push(b0, items.skip(1), x);
    }
}

/// The factor spine: the head fits `unary`, the items fit `unary` under
/// `/` or `*`, the tokens flatten, and the fold rebuilds the expression.
proof fn lemma_factor_spine(e: ExpM)
    requires
        fits_factor(e),
    ensures
        fits_unary(factor_head(e)),
        exp_height(factor_head(e)) <= exp_height(e),
        rtokens(e) == rtokens(factor_head(e)) + items_tokens(factor_items(e)),
        fold_items(lines1(factor_head(e)), factor_items(e)) == lines1(e),
        forall|k: int|
            0 <= k < factor_items(e).len() ==> (((#[trigger] factor_items(e)[k]).0.kind
                == TokenType::Slash || factor_items(e)[k].0.kind == TokenType::Star) && bare_op(
                factor_items(e)[k].0,
            ) && fits_unary(factor_items(e)[k].1) && exp_height(factor_items(e)[k].1)
                <= exp_height(e)),
    decreases e,
{
    match e {
        ExpM::Binary { op, left, right } => {
            if op.kind == TokenType::Slash || op.kind == TokenType::Star {
                lemma_factor_spine(*left);
                lemma_items_tokens_push(factor_items(*left), (op, *right));
                assert(rtokens(e) =~= rtokens(factor_head(e)) + items_tokens(factor_items(e)));
                lemma_fold_items_push(
                    lines1(factor_head(*left)),
                    factor_items(*left),
                    (op, *right),
                );
                assert(factor_items(e) == factor_items(*left).push((op, *right)));
                assert forall|k: int|
                    0 <= k < factor_items(e).len() implies ((#[trigger] factor_items(
                    e,
                )[k]).0.kind == TokenType::Slash || factor_items(e)[k].0.kind == TokenType::Star)
                    && bare_op(factor_items(e)[k].0) && fits_unary(factor_items(e)[k].1)
                    && exp_height(factor_items(e)[k].1) <= exp_height(e) by {
                    if k < factor_items(*left).len() {
                        assert(factor_items(e)[k] == factor_items(*left)[k]);
                        assert(fits_unary(factor_items(*left)[k].1));
                        assert(exp_height(factor_items(*left)[k].1) <= exp_height(*left));
                    } else {
                        assert(factor_items(e)[k] == (op, *right));
                    }
                }
            } else {
                assert(rtokens(e) =~= rtokens(factor_head(e)) + items_tokens(factor_items(e)));
            }
        },
        _ => {
            assert(factor_items(e).len() == 0);
            assert(rtokens(e) =~= rtokens(factor_head(e)) + items_tokens(factor_items(e)));
        },
    }
}

/// The term spine, shaped as the factor spine is.
proof fn lemma_term_spine(e: ExpM)
    requires
        fits_term(e),
    ensures
        fits_factor(term_head(e)),
        exp_height(term_head(e)) <= exp_height(e),
        rtokens(e) == rtokens(term_head(e)) + items_tokens(term_items(e)),
        fold_items(lines1(term_head(e)), term_items(e)) == lines1(e),
        forall|k: int|
            0 <= k < term_items(e).len() ==> (((#[trigger] term_items(e)[k]).0.kind
                == TokenType::Plus || term_items(e)[k].0.kind == TokenType::Minus) && bare_op(
                term_items(e)[k].0,
            ) && fits_factor(term_items(e)[k].1) && exp_height(term_items(e)[k].1)
                <= exp_height(e)),
    decreases e,
{
    match e {
        ExpM::Binary { op, left, right } => {
            if op.kind == TokenType::Plus || op.kind == TokenType::Minus {
                lemma_term_spine(*left);
                lemma_items_tokens_push(term_items(*left), (op, *right));
                assert(rtokens(e) =~= rtokens(term_head(e)) + items_tokens(term_items(e)));
                lemma_fold_items_push(lines1(term_head(*left)), term_items(*left), (op, *right));
                assert(term_items(e) == term_items(*left).push((op, *right)));
                assert forall|k: int|
                    0 <= k < term_items(e).len() implies ((#[trigger] term_items(e)[k]).0.kind
                    == TokenType::Plus || term_items(e)[k].0.kind == TokenType::Minus) && bare_op(
                    term_items(e)[k].0,
                ) && fits_factor(term_items(e)[k].1) && exp_height(term_items(e)[k].1)
                    <= exp_height(e) by {
                    if k < term_items(*left).len() {
                        assert(term_items(e)[k] == term_items(*left)[k]);
                        assert(fits_factor(term_items(*left)[k].1));
                        assert(exp_height(term_items(*left)[k].1) <= exp_height(*left));
                    } else {
                        assert(term_items(e)[k] == (op, *right));
                    }
                }
            } else {
                assert(rtokens(e) =~= rtokens(term_head(e)) + items_tokens(term_items(e)));
            }
        },
        _ => {
            assert(term_items(e).len() == 0);
            assert(rtokens(e) =~= rtokens(term_head(e)) + items_tokens(term_items(e)));
        },
    }
}

/// Token kinds the factor loop does not consume.
pub open spec fn follow_factor(k: TokenType) -> bool {
    k != TokenType::Slash && k != TokenType::Star
}

/// Token kinds the term loop and everything below it do not consume.
pub open spec fn follow_term(k: TokenType) -> bool {
    follow_factor(k) && k != TokenType::Plus && k != TokenType::Minus
}

/// Token kinds the comparison level and everything below it do not consume.
pub open spec fn follow_comparison(k: TokenType) -> bool {
    follow_term(k) && k != TokenType::LessThan && k != TokenType::LessEquals && k
        != TokenType::GreaterThan && k != TokenType::GreaterEquals
}

/// Token kinds no expression level consumes.
pub open spec fn follow_equality(k: TokenType) -> bool {
    follow_comparison(k) && k != TokenType::BangEquals && k != TokenType::DoubleEquals
}

/// A slice of a laid-out block is laid out where it stands.
proof fn lemma_sub_layout<T>(ts: Seq<T>, i: nat, whole: Seq<T>, a: nat, b: nat)
    requires
        i + whole.len() <= ts.len(),
        ts.subrange(i as int, (i + whole.len()) as int) == whole,
        a <= b <= whole.len(),
    ensures
        ts.subrange((i + a) as int, (i + b) as int) == whole.subrange(a as int, b as int),
{
    assert forall|k: int|
        0 <= k < b - a implies ts.subrange((i + a) as int, (i + b) as int)[k] == whole.subrange(
        a as int,
        b as int,
    )[k] by {
        assert(ts.subrange(i as int, (i + whole.len()) as int)[a + k] == whole[a + k]);
    }
    assert(ts.subrange((i + a) as int, (i + b) as int) =~= whole.subrange(a as int, b as int));
}

/// One element of a laid-out block, read off the whole sequence.
proof fn lemma_layout_index<T>(ts: Seq<T>, i: nat, whole: Seq<T>, k: nat)
    requires
        i + whole.len() <= ts.len(),
        ts.subrange(i as int, (i + whole.len()) as int) == whole,
        k < whole.len(),
    ensures
        ts[(i + k) as int] == whole[k as int],
{
    assert(ts.subrange(i as int, (i + whole.len()) as int)[k as int] == whole[k as int]);
}

/// `primary` reads back exactly the rendered tokens of what it printed.
proof fn lemma_rt_primary(e: ExpM, ts: Seq<TokenM>, i: nat)
    requires
        fits_primary(e),
        laid_out(e, ts, i),
    ensures
        sp_primary(ts, i) == Result::<(ExpM, nat), LErrM>::Ok(
            (lines1(e), (i + rtokens(e).len()) as nat),
        ),
    decreases exp_height(e), 0int, 0int,
{
    let r = rtokens(e);
    match e {
        ExpM::Literal(l) => {
            lemma_layout_index(ts, i, r, 0);
            assert(ts[i as int] == lit_token(l));
            match l {
                LitM::Number { value, text } => {
                    assert(spec_access_lexeme(lit_token(l)) == text);
                    assert(crate::expressions::spec_new_number(lit_token(l)) == Result::<
                        LitM,
                        LErrM,
                    >::Ok(LitM::Number { value, text }));
                },
                LitM::Bool(_) => {},
                LitM::Str(_) => {},
            }
        },
        ExpM::Grouping(inner) => {
            lemma_layout_index(ts, i, r, 0);
            assert(ts[i as int] == bare_token(TokenType::LeftBracket, 1));
            let n = rtokens(*inner).len();
            assert(r.len() == n + 2);
            lemma_sub_layout(ts, i, r, 1, (1 + n) as nat);
            assert(r.subrange(1, 1 + n as int) =~= rtokens(*inner));
            assert(laid_out(*inner, ts, (i + 1) as nat));
            lemma_layout_index(ts, i, r, (1 + n) as nat);
            assert(ts[(i + 1 + n) as int] == bare_token(TokenType::RightBracket, 1));
            lemma_rt_equality(*inner, ts, (i + 1) as nat);
        },
        _ => {},
    }
}

/// `unary` reads back exactly the rendered tokens of what it printed.
proof fn lemma_rt_unary(e: ExpM, ts: Seq<TokenM>, i: nat)
    requires
        fits_unary(e),
        laid_out(e, ts, i),
    ensures
        sp_unary(ts, i) == Result::<(ExpM, nat), LErrM>::Ok(
            (lines1(e), (i + rtokens(e).len()) as nat),
        ),
    decreases exp_height(e), 1int, 0int,
{
    let r = rtokens(e);
    match e {
        ExpM::Unary { op, expr } => {
            lemma_layout_index(ts, i, r, 0);
            assert(ts[i as int] == bare_token(op.kind, 1));
            let n = rtokens(*expr).len();
            assert(r.len() == n + 1);
            lemma_sub_layout(ts, i, r, 1, (1 + n) as nat);
            assert(r.subrange(1, 1 + n as int) =~= rtokens(*expr));
            assert(laid_out(*expr, ts, (i + 1) as nat));
            lemma_rt_unary(*expr, ts, (i + 1) as nat);
        },
        _ => {
            lemma_layout_index(ts, i, r, 0);
            match e {
                ExpM::Literal(l) => {
                    assert(ts[i as int] == lit_token(l));
                },
                ExpM::Grouping(_) => {
                    assert(ts[i as int] == bare_token(TokenType::LeftBracket, 1));
                },
                _ => {},
            }
            lemma_rt_primary(e, ts, i);
        },
    }
}

/// The factor loop folds a laid-out spine tail onto its accumulator.
proof fn lemma_rt_factor_loop(
    items: Seq<(TokenM, ExpM)>,
    ts: Seq<TokenM>,
    i: nat,
    acc: ExpM,
    bound: nat,
)
    requires
        i + items_tokens(items).len() < ts.len(),
        ts.subrange(i as int, (i + items_tokens(items).len()) as int) == items_tokens(items),
        follow_factor(ts[(i + items_tokens(items).len()) as int].kind),
        forall|k: int|
            0 <= k < items.len() ==> (((#[trigger] items[k]).0.kind == TokenType::Slash
                || items[k].0.kind == TokenType::Star) && fits_unary(items[k].1) && exp_height(
                items[k].1,
            ) <= bound),
    ensures
        sp_factor_loop(ts, i, acc) == Result::<(ExpM, nat), LErrM>::Ok(
            (fold_items(acc, items), (i + items_tokens(items).len()) as nat),
        ),
    decreases bound, 2int, items.len(),
{
    let w = items_tokens(items);
    if items.len() == 0 {
        assert(w =~= Seq::<TokenM>::empty());
        assert(fold_items(acc, items) == acc);
    } else {
        let x = items[0];
        let rest = items.skip(1);
        let xt = seq![bare_token(x.0.kind, 1)] + rtokens(x.1);
        assert(w == xt + items_tokens(rest));
        let m = rtokens(x.1).len();
        lemma_layout_index(ts, i, w, 0);
        assert(ts[i as int] == bare_token(x.0.kind, 1));
        lemma_sub_layout(ts, i, w, 1, (1 + m) as nat);
        assert(w.subrange(1, 1 + m as int) =~= rtokens(x.1));
        assert(laid_out(x.1, ts, (i + 1) as nat));
        lemma_rt_unary(x.1, ts, (i + 1) as nat);
        lemma_sub_layout(ts, i, w, (1 + m) as nat, w.len() as nat);
        assert(w.subrange(1 + m as int, w.len() as int) =~= items_tokens(rest));
        assert forall|k: int|
            0 <= k < rest.len() implies (((#[trigger] rest[k]).0.kind == TokenType::Slash
            || rest[k].0.kind == TokenType::Star) && fits_unary(rest[k].1) && exp_height(rest[k].1)
            <= bound) by {
            assert(rest[k] == items[k + 1]);
        }
        lemma_rt_factor_loop(
            rest,
            ts,
            (i + 1 + m) as nat,
            ExpM::Binary {
                op: bare_token(x.0.kind, 1),
                left: Box::new(acc),
                right: Box::new(lines1(x.1)),
            },
            bound,
        );
    }
}

/// `factor` reads back exactly the rendered tokens of what it printed.
proof fn lemma_rt_factor(e: ExpM, ts: Seq<TokenM>, i: nat)
    requires
        fits_factor(e),
        laid_out(e, ts, i),
        follow_factor(ts[(i + rtokens(e).len()) as int].kind),
    ensures
        sp_factor(ts, i) == Result::<(ExpM, nat), LErrM>::Ok(
            (lines1(e), (i + rtokens(e).len()) as nat),
        ),
    decreases exp_height(e), 3int, 0int,
{
    let r = rtokens(e);
    lemma_factor_spine(e);
    let h = factor_head(e);
    let items = factor_items(e);
    let hn = rtokens(h).len();
    assert(r == rtokens(h) + items_tokens(items));
    lemma_sub_layout(ts, i, r, 0, hn as nat);
    assert(r.subrange(0, hn as int) =~= rtokens(h));
    assert(laid_out(h, ts, i));
    lemma_rt_unary(h, ts, i);
    lemma_sub_layout(ts, i, r, hn as nat, r.len() as nat);
    assert(r.subrange(hn as int, r.len() as int) =~= items_tokens(items));
    lemma_rt_factor_loop(items, ts, (i + hn) as nat, lines1(h), exp_height(e));
}

/// The term loop folds a laid-out spine tail onto its accumulator.
proof fn lemma_rt_term_loop(
    items: Seq<(TokenM, ExpM)>,
    ts: Seq<TokenM>,
    i: nat,
    acc: ExpM,
    bound: nat,
)
    requires
        i + items_tokens(items).len() < ts.len(),
        ts.subrange(i as int, (i + items_tokens(items).len()) as int) == items_tokens(items),
        follow_term(ts[(i + items_tokens(items).len()) as int].kind),
        forall|k: int|
            0 <= k < items.len() ==> (((#[trigger] items[k]).0.kind == TokenType::Plus
                || items[k].0.kind == TokenType::Minus) && fits_factor(items[k].1) && exp_height(
                items[k].1,
            ) <= bound),
    ensures
        sp_term_loop(ts, i, acc) == Result::<(ExpM, nat), LErrM>::Ok(
            (fold_items(acc, items), (i + items_tokens(items).len()) as nat),
        ),
    decreases bound, 4int, items.len(),
{
    let w = items_tokens(items);
    if items.len() == 0 {
        assert(w =~= Seq::<TokenM>::empty());
        assert(fold_items(acc, items) == acc);
    } else {
        let x = items[0];
        let rest = items.skip(1);
        let xt = seq![bare_token(x.0.kind, 1)] + rtokens(x.1);
        assert(w == xt + items_tokens(rest));
        let m = rtokens(x.1).len();
        lemma_layout_index(ts, i, w, 0);
        assert(ts[i as int] == bare_token(x.0.kind, 1));
        lemma_sub_layout(ts, i, w, 1, (1 + m) as nat);
        assert(w.subrange(1, 1 + m as int) =~= rtokens(x.1));
        assert(laid_out(x.1, ts, (i + 1) as nat));
        lemma_sub_layout(ts, i, w, (1 + m) as nat, w.len() as nat);
        assert(w.subrange(1 + m as int, w.len() as int) =~= items_tokens(rest));
        if rest.len() == 0 {
            assert(items_tokens(rest) =~= Seq::<TokenM>::empty());
            assert(i + 1 + m == i + w.len());
        } else {
            let rt0 = seq![bare_token(rest[0].0.kind, 1)] + rtokens(rest[0].1);
            assert(items_tokens(rest) == rt0 + items_tokens(rest.skip(1)));
            lemma_layout_index(ts, (i + 1 + m) as nat, items_tokens(rest), 0);
            assert(rest[0] == items[1]);
            assert(ts[(i + 1 + m) as int] == bare_token(rest[0].0.kind, 1));
        }
        assert(follow_factor(ts[(i + 1 + m) as int].kind));
        lemma_rt_factor(x.1, ts, (i + 1) as nat);
        assert forall|k: int|
            0 <= k < rest.len() implies (((#[trigger] rest[k]).0.kind == TokenType::Plus
            || rest[k].0.kind == TokenType::Minus) && fits_factor(rest[k].1) && exp_height(
            rest[k].1,
        ) <= bound) by {
            assert(rest[k] == items[k + 1]);
        }
        lemma_rt_term_loop(
            rest,
            ts,
            (i + 1 + m) as nat,
            ExpM::Binary {
                op: bare_token(x.0.kind, 1),
                left: Box::new(acc),
                right: Box::new(lines1(x.1)),
            },
            bound,
        );
    }
}

/// `term` reads back exactly the rendered tokens of what it printed.
proof fn lemma_rt_term(e: ExpM, ts: Seq<TokenM>, i: nat)
    requires
        fits_term(e),
        laid_out(e, ts, i),
        follow_term(ts[(i + rtokens(e).len()) as int].kind),
    ensures
        sp_term(ts, i) == Result::<(ExpM, nat), LErrM>::Ok(
            (lines1(e), (i + rtokens(e).len()) as nat),
        ),
    decreases exp_height(e), 5int, 0int,
{
    let r = rtokens(e);
    lemma_term_spine(e);
    let h = term_head(e);
    let items = term_items(e);
    let hn = rtokens(h).len();
    assert(r == rtokens(h) + items_tokens(items));
    lemma_sub_layout(ts, i, r, 0, hn as nat);
    assert(r.subrange(0, hn as int) =~= rtokens(h));
    assert(laid_out(h, ts, i));
    lemma_sub_layout(ts, i, r, hn as nat, r.len() as nat);
    assert(r.subrange(hn as int, r.len() as int) =~= items_tokens(items));
    if items.len() == 0 {
        assert(items_tokens(items) =~= Seq::<TokenM>::empty());
        assert(i + hn == i + r.len());
    } else {
        let it0 = seq![bare_token(items[0].0.kind, 1)] + rtokens(items[0].1);
        assert(items_tokens(items) == it0 + items_tokens(items.skip(1)));
        lemma_layout_index(ts, (i + hn) as nat, items_tokens(items), 0);
        assert(ts[(i + hn) as int] == bare_token(items[0].0.kind, 1));
    }
    assert(follow_factor(ts[(i + hn) as int].kind));
    lemma_rt_factor(h, ts, i);
    lemma_rt_term_loop(items, ts, (i + hn) as nat, lines1(h), exp_height(e));
}

/// `comparison` reads back exactly the rendered tokens of what it printed.
proof fn lemma_rt_comparison(e: ExpM, ts: Seq<TokenM>, i: nat)
    requires
        fits_comparison(e),
        laid_out(e, ts, i),
        follow_comparison(ts[(i + rtokens(e).len()) as int].kind),
    ensures
        sp_comparison(ts, i) == Result::<(ExpM, nat), LErrM>::Ok(
            (lines1(e), (i + rtokens(e).len()) as nat),
        ),
    decreases exp_height(e), 6int, 0int,
{
    let r = rtokens(e);
    if e matches ExpM::Binary { op, .. } && (op.kind == TokenType::LessThan || op.kind
        == TokenType::LessEquals || op.kind == TokenType::GreaterThan || op.kind
        == TokenType::GreaterEquals) {
        match e {
            ExpM::Binary { op, left, right } => {
                let ln = rtokens(*left).len();
                assert(r == rtokens(*left) + seq![bare_token(op.kind, 1)] + rtokens(*right));
                lemma_sub_layout(ts, i, r, 0, ln as nat);
                assert(r.subrange(0, ln as int) =~= rtokens(*left));
                assert(laid_out(*left, ts, i));
                lemma_layout_index(ts, i, r, ln as nat);
                assert(ts[(i + ln) as int] == bare_token(op.kind, 1));
                lemma_rt_term(*left, ts, i);
                lemma_sub_layout(ts, i, r, (ln + 1) as nat, r.len() as nat);
                assert(r.subrange(ln + 1 as int, r.len() as int) =~= rtokens(*right));
                assert(laid_out(*right, ts, (i + ln + 1) as nat));
                lemma_rt_term(*right, ts, (i + ln + 1) as nat);
            },
            _ => {},
        }
    } else {
        lemma_rt_term(e, ts, i);
    }
}

/// `equality` — the whole expression grammar — reads back exactly the
/// rendered tokens of what it printed.
proof fn lemma_rt_equality(e: ExpM, ts: Seq<TokenM>, i: nat)
    requires
        fits_equality(e),
        laid_out(e, ts, i),
        follow_equality(ts[(i + rtokens(e).len()) as int].kind),
    ensures
        sp_equality(ts, i) == Result::<(ExpM, nat), LErrM>::Ok(
            (lines1(e), (i + rtokens(e).len()) as nat),
        ),
    decreases exp_height(e), 7int, 0int,
{
    let r = rtokens(e);
    if e matches ExpM::Binary { op, .. } && (op.kind == TokenType::BangEquals || op.kind
        == TokenType::DoubleEquals) {
        match e {
            ExpM::Binary { op, left, right } => {
                let ln = rtokens(*left).len();
                assert(r == rtokens(*left) + seq![bare_token(op.kind, 1)] + rtokens(*right));
                lemma_sub_layout(ts, i, r, 0, ln as nat);
                assert(r.subrange(0, ln as int) =~= rtokens(*left));
                assert(laid_out(*left, ts, i));
                lemma_layout_index(ts, i, r, ln as nat);
                assert(ts[(i + ln) as int] == bare_token(op.kind, 1));
                lemma_rt_comparison(*left, ts, i);
                lemma_sub_layout(ts, i, r, (ln + 1) as nat, r.len() as nat);
                assert(r.subrange(ln + 1 as int, r.len() as int) =~= rtokens(*right));
                assert(laid_out(*right, ts, (i + ln + 1) as nat));
                lemma_rt_comparison(*right, ts, (i + ln + 1) as nat);
            },
            _ => {},
        }
    } else {
        lemma_fits_up(e);
        lemma_rt_comparison(e, ts, i);
    }
}

/// The run of digits laid out in `[a, b)` determines the run end.
proof fn lemma_digit_run_laid(s: Seq<char>, a: int, b: int)
    requires
        0 <= a <= b <= s.len(),
        forall|k: int| a <= k < b ==> is_digit_char(s[k]),
        b == s.len() || !is_digit_char(s[b]),
    ensures
        digit_run_end(s, a) == b,
    decreases b - a,
{
    if a < b {
        lemma_digit_run_laid(s, a + 1, b);
    }
}

/// The run of letters and digits laid out in `[a, b)` determines the run
/// end.
proof fn lemma_alnum_run_laid(s: Seq<char>, a: int, b: int)
    requires
        0 <= a <= b <= s.len(),
        forall|k: int| a <= k < b ==> is_alnum_char(s[k]),
        b == s.len() || !is_alnum_char(s[b]),
    ensures
        alnum_run_end(s, a) == b,
    decreases b - a,
{
    if a < b {
        lemma_alnum_run_laid(s, a + 1, b);
    }
}

/// The quote-free stretch laid out in `[a, b)` determines the position of
/// the closing quote.
proof fn lemma_quote_pos_laid(s: Seq<char>, a: int, b: int)
    requires
        0 <= a <= b < s.len(),
        forall|k: int| a <= k < b ==> s[k] != '"',
        s[b] == '"',
    ensures
        quote_pos(s, a) == b,
    decreases b - a,
{
    if a < b {
        lemma_quote_pos_laid(s, a + 1, b);
    }
}

/// A newline-free stretch holds no newlines.
proof fn lemma_newline_count_zero(t: Seq<char>)
    requires
        forall|k: int| 0 <= k < t.len() ==> t[k] != '\n',
    ensures
        newline_count(t) == 0,
    decreases t.len(),
{
    if t.len() > 0 {
        lemma_newline_count_zero(t.drop_last());
    }
}

/// The spellings of the fixed tokens the renderer writes, character by
/// character.
proof fn lemma_symbol_chars()
    ensures
        symbol_name(TokenType::Plus) =~= seq!['+'],
        symbol_name(TokenType::Minus) =~= seq!['-'],
        symbol_name(TokenType::Star) =~= seq!['*'],
        symbol_name(TokenType::Slash) =~= seq!['/'],
        symbol_name(TokenType::Bang) =~= seq!['!'],
        symbol_name(TokenType::LessThan) =~= seq!['<'],
        symbol_name(TokenType::GreaterThan) =~= seq!['>'],
        symbol_name(TokenType::LessEquals) =~= seq!['<', '='],
        symbol_name(TokenType::GreaterEquals) =~= seq!['>', '='],
        symbol_name(TokenType::DoubleEquals) =~= seq!['=', '='],
        symbol_name(TokenType::BangEquals) =~= seq!['!', '='],
        " "@ =~= seq![' '],
        "("@ =~= seq!['('],
        ")"@ =~= seq![')'],
        "\""@ =~= seq!['"'],
{
    reveal_strlit("+");
    reveal_strlit("-");
    reveal_strlit("*");
    reveal_strlit("/");
    reveal_strlit("!");
    reveal_strlit("<");
    reveal_strlit(">");
    reveal_strlit("<=");
    reveal_strlit(">=");
    reveal_strlit("==");
    reveal_strlit("!=");
    reveal_strlit(" ");
    reveal_strlit("(");
    reveal_strlit(")");
    reveal_strlit("\"");
}

/// The two boolean spellings: their characters, and that the reserved-word
/// table sends them to their keyword kinds.
proof fn lemma_bool_words()
    ensures
        "true"@ =~= seq!['t', 'r', 'u', 'e'],
        "false"@ =~= seq!['f', 'a', 'l', 's', 'e'],
        keyword_of("true"@) == Option::Some(TokenType::True),
        keyword_of("false"@) == Option::Some(TokenType::False),
{
    reveal_strlit("true");
    reveal_strlit("false");
    reveal_strlit("and");
    reveal_strlit("or");
    reveal_strlit("if");
    reveal_strlit("let");
    reveal_strlit("fn");
    reveal_strlit("package");
    reveal_strlit("print");
    assert("and"@.len() == 3 && "or"@.len() == 2 && "if"@.len() == 2 && "let"@.len() == 3
        && "fn"@.len() == 2 && "package"@.len() == 7 && "print"@.len() == 5 && "true"@.len() == 4
        && "false"@.len() == 5);
    assert("print"@[0] == 'p' && "false"@[0] == 'f');
}

/// A character that can open the rendering of an expression. None of them
/// extends a preceding `!` to `!=`.
pub open spec fn starts_expression_char(c: char) -> bool {
    is_digit_char(c) || c == '"' || c == 't' || c == 'f' || c == '-' || c == '!' || c == '('
}

/// Every rendering is nonempty and opens with an expression-opening
/// character.
proof fn lemma_render_first(e: ExpM)
    requires
        fits_equality(e),
    ensures
        render_exp(e).len() >= 1,
        starts_expression_char(render_exp(e)[0]),
    decreases e,
{
    lemma_fits_up(e);
    lemma_symbol_chars();
    lemma_bool_words();
    match e {
        ExpM::Literal(l) => {
            match l {
                LitM::Number { text, .. } => {
                    if all_digits(text) {
                        assert(is_digit_char(text[0]));
                    } else {
                        let k = choose|k: int|
                            1 <= k < text.len() - 1 && text[k] == '.' && all_digits(
                                text.take(k),
                            ) && all_digits(text.skip(k + 1));
                        assert(is_digit_char(text.take(k)[0]));
                    }
                },
                LitM::Bool(_) => {},
                LitM::Str(_) => {},
            }
        },
        ExpM::Unary { .. } => {},
        ExpM::Binary { op, left, .. } => {
            assert(fits_equality(*left)) by {
                lemma_fits_up(*left);
                if op.kind == TokenType::BangEquals || op.kind == TokenType::DoubleEquals {
                    assert(fits_comparison(*left));
                } else if op.kind == TokenType::LessThan || op.kind == TokenType::LessEquals
                    || op.kind == TokenType::GreaterThan || op.kind == TokenType::GreaterEquals {
                    assert(fits_term(*left));
                } else if op.kind == TokenType::Plus || op.kind == TokenType::Minus {
                    assert(fits_term(*left));
                } else {
                    assert(fits_factor(*left));
                }
            }
            lemma_render_first(*left);
            assert(render_exp(e)[0] == render_exp(*left)[0]);
        },
        ExpM::Grouping(_) => {},
    }
}


proof fn lemma_join_assoc(a: Seq<TokenM>, b: Seq<TokenM>, r: Result<Seq<TokenM>, LErrM>)
    ensures
        lex_seq_join(a, lex_seq_join(b, r)) == lex_seq_join(a + b, r),
{
    match r {
        Result::Ok(ts) => {
            assert(a + (b + ts) =~= (a + b) + ts);
        },
        Result::Err(_) => {},
    }
}

proof fn lemma_join_cons(t: TokenM, r: Result<Seq<TokenM>, LErrM>)
    ensures
        lex_cons(t, r) == lex_seq_join(seq![t], r),
{
}

/// An operator written with a space after it scans to its one token.
proof fn lemma_lex_symbol(s: Seq<char>, p: nat, kind: TokenType)
    requires
        !follow_equality(kind),
        p + symbol_name(kind).len() < s.len(),
        s.subrange(p as int, (p + symbol_name(kind).len()) as int) == symbol_name(kind),
        s[(p + symbol_name(kind).len()) as int] == ' ',
    ensures
        lex_from(s, p as int, 1) == lex_cons(
            bare_token(kind, 1),
            lex_from(s, (p + symbol_name(kind).len()) as int, 1),
        ),
{
    lemma_symbol_chars();
    let sym = symbol_name(kind);
    assert forall|j: int| p <= j < p + sym.len() implies s[j] == sym[j - p] by {
        assert(s.subrange(p as int, (p + sym.len()) as int)[j - p] == sym[j - p]);
    }
    assert(s[p as int] == sym[0]);
    if kind == TokenType::LessEquals || kind == TokenType::GreaterEquals || kind
        == TokenType::DoubleEquals || kind == TokenType::BangEquals {
        assert(s[p as int + 1] == '=');
    } else {
        assert(sym.len() == 1);
        assert(s[(p + 1) as int] == ' ');
    }
}

/// The rendering of a literal scans to exactly its one token.
#[verifier::rlimit(80)]
#[verifier::spinoff_prover]
proof fn lemma_lex_render_literal(l: LitM, s: Seq<char>, p: nat)
    requires
        lit_renderable(l),
        p + render_lit(l).len() <= s.len(),
        s.subrange(p as int, (p + render_lit(l).len()) as int) == render_lit(l),
        p + render_lit(l).len() == s.len() || s[(p + render_lit(l).len()) as int] == ' ' || s[(p
            + render_lit(l).len()) as int] == ')',
    ensures
        lex_from(s, p as int, 1) == lex_seq_join(
            seq![lit_token(l)],
            lex_from(s, (p + render_lit(l).len()) as int, 1),
        ),
{
    lemma_symbol_chars();
    lemma_bool_words();
    let rl = render_lit(l);
    let end = (p + rl.len()) as int;
    assert forall|j: int| p <= j < p + rl.len() implies s[j] == rl[j - p] by {
        assert(s.subrange(p as int, end)[j - p] == rl[j - p]);
    }
    match l {
        LitM::Number { value, text } => {
            assert(rl == text);
            if all_digits(text) {
                lemma_digit_run_laid(s, p as int, end);
                assert(num_lexeme_end(s, p as int) == end);
            } else {
                let k = choose|k: int|
                    1 <= k < text.len() - 1 && text[k] == '.' && all_digits(text.take(k))
                        && all_digits(text.skip(k + 1));
                assert forall|j: int| p <= j < p + k implies is_digit_char(s[j]) by {
                    assert(text.take(k)[j - p] == text[j - p]);
                }
                assert(s[p + k] == '.');
                lemma_digit_run_laid(s, p as int, p + k);
                assert forall|j: int|
                    p + k + 1 <= j < p + text.len() implies is_digit_char(s[j]) by {
                    assert(text.skip(k + 1)[j - (p + k + 1)] == text[j - p]);
                }
                assert(is_digit_char(s[p + k + 1]));
                lemma_digit_run_laid(s, p + k + 1, end);
                assert(num_lexeme_end(s, p as int) == end);
            }
            assert(is_digit_char(s[p as int]));
            assert(s.subrange(p as int, end) == text);
            assert(lex_from(s, p as int, 1) == lex_cons(
                text_token(TokenType::Number, text, 1),
                lex_from(s, end, 1),
            ));
            lemma_join_cons(lit_token(l), lex_from(s, end, 1));
        },
        LitM::Bool(b) => {
            assert forall|j: int| p <= j < end implies is_alnum_char(s[j]) by {
                assert(s[j] == rl[j - p]);
            }
            lemma_alnum_run_laid(s, p as int, end);
            assert(is_alpha_char(s[p as int]));
            assert(s.subrange(p as int, end) == rl);
            assert(keyword_of(s.subrange(p as int, end)) == Option::Some(
                if b {
                    TokenType::True
                } else {
                    TokenType::False
                },
            ));
            assert(lex_from(s, p as int, 1) == lex_cons(lit_token(l), lex_from(s, end, 1)));
            lemma_join_cons(lit_token(l), lex_from(s, end, 1));
        },
        LitM::Str(content) => {
            assert(rl == "\""@ + content + "\""@);
            assert(s[p as int] == '"');
            assert(s[end - 1] == '"');
            assert forall|j: int| p + 1 <= j < end - 1 implies s[j] != '"' by {
                assert(s[j] == rl[j - p]);
                assert(rl[j - p] == content[j - p - 1]);
            }
            lemma_quote_pos_laid(s, p as int + 1, end - 1);
            assert(s.subrange(p as int + 1, end - 1) =~= content);
            lemma_newline_count_zero(content);
            assert(!is_ws_char('"') && !is_digit_char('"') && !is_alpha_char('"'));
            assert(lex_from(s, p as int, 1) == lex_cons(
                text_token(TokenType::String, content, 1),
                lex_from(s, end, 1),
            ));
            lemma_join_cons(lit_token(l), lex_from(s, end, 1));
        },
    }
}

/// The rendering of a binary application scans to its rendered tokens.
#[verifier::rlimit(100)]
#[verifier::spinoff_prover]
proof fn lemma_lex_render_binary(e: ExpM, s: Seq<char>, p: nat)
    requires
        e is Binary,
        fits_equality(e),
        p + render_exp(e).len() <= s.len(),
        s.subrange(p as int, (p + render_exp(e).len()) as int) == render_exp(e),
        p + render_exp(e).len() == s.len() || s[(p + render_exp(e).len()) as int] == ' ' || s[(p
            + render_exp(e).len()) as int] == ')',
    ensures
        lex_from(s, p as int, 1) == lex_seq_join(
            rtokens(e),
            lex_from(s, (p + render_exp(e).len()) as int, 1),
        ),
    decreases e, 0int,
{
    lemma_symbol_chars();
    lemma_bool_words();
    let rl = render_exp(e);
    let end = (p + rl.len()) as int;
    assert forall|j: int| p <= j < p + rl.len() implies s[j] == rl[j - p] by {
        assert(s.subrange(p as int, end)[j - p] == rl[j - p]);
    }
    match e {
        ExpM::Binary { op, left, right } => {
                assert(fits_equality(*left) && fits_equality(*right)) by {
                    lemma_fits_up(*left);
                    lemma_fits_up(*right);
                    if op.kind == TokenType::BangEquals || op.kind == TokenType::DoubleEquals {
                        assert(fits_comparison(*left) && fits_comparison(*right));
                    } else if op.kind == TokenType::LessThan || op.kind == TokenType::LessEquals
                        || op.kind == TokenType::GreaterThan || op.kind == TokenType::GreaterEquals {
                        assert(fits_term(*left) && fits_term(*right));
                    } else if op.kind == TokenType::Plus || op.kind == TokenType::Minus {
                        assert(fits_term(*left) && fits_factor(*right));
                    } else {
                        assert(fits_factor(*left) && fits_unary(*right));
                    }
                }
                assert(!follow_equality(op.kind));
                let sym = symbol_name(op.kind);
                let ll = render_exp(*left).len();
                let sl = sym.len();
                let a1 = p + ll;
                let a2 = a1 + 1;
                let a3 = a2 + sl;
                let a4 = a3 + 1;
                assert(rl == render_exp(*left) + " "@ + sym + " "@ + render_exp(*right));
                assert(rl.len() == ll + 1 + sl + 1 + render_exp(*right).len());
                lemma_sub_layout(s, p, rl, 0, ll as nat);
                assert(rl.subrange(0, ll as int) =~= render_exp(*left));
                assert(s[a1 as int] == ' ') by {
                    assert(rl[ll as int] == ' ');
                }
                lemma_lex_render(*left, s, p);
                assert(lex_from(s, a1 as int, 1) == lex_from(s, a2 as int, 1));
                lemma_sub_layout(s, p, rl, (ll + 1) as nat, (ll + 1 + sl) as nat);
                assert(rl.subrange((ll + 1) as int, (ll + 1 + sl) as int) =~= sym);
                assert(s[a3 as int] == ' ') by {
                    assert(rl[(ll + 1 + sl) as int] == ' ');
                }
                lemma_lex_symbol(s, a2 as nat, op.kind);
                assert(lex_from(s, a3 as int, 1) == lex_from(s, a4 as int, 1));
                lemma_sub_layout(s, p, rl, (ll + 2 + sl) as nat, rl.len() as nat);
                assert(rl.subrange((ll + 2 + sl) as int, rl.len() as int) =~= render_exp(*right));
                lemma_lex_render(*right, s, a4 as nat);
                let rest = lex_from(s, end, 1);
                lemma_join_cons(bare_token(op.kind, 1), lex_from(s, a3 as int, 1));
                lemma_join_assoc(seq![bare_token(op.kind, 1)], rtokens(*right), rest);
                lemma_join_assoc(
                    rtokens(*left),
                    seq![bare_token(op.kind, 1)] + rtokens(*right),
                    rest,
                );
                assert(rtokens(*left) + (seq![bare_token(op.kind, 1)] + rtokens(*right))
                    =~= rtokens(e));
        },
        _ => {},
    }
}

/// The rendering of an expression scans to exactly its rendered tokens,
/// all on line 1, and scanning continues just past it.
#[verifier::rlimit(100)]
#[verifier::spinoff_prover]
proof fn lemma_lex_render(e: ExpM, s: Seq<char>, p: nat)
    requires
        fits_equality(e),
        p + render_exp(e).len() <= s.len(),
        s.subrange(p as int, (p + render_exp(e).len()) as int) == render_exp(e),
        p + render_exp(e).len() == s.len() || s[(p + render_exp(e).len()) as int] == ' ' || s[(p
            + render_exp(e).len()) as int] == ')',
    ensures
        lex_from(s, p as int, 1) == lex_seq_join(
            rtokens(e),
            lex_from(s, (p + render_exp(e).len()) as int, 1),
        ),
    decreases e, 1int,
{
    lemma_symbol_chars();
    lemma_bool_words();
    let rl = render_exp(e);
    let end = (p + rl.len()) as int;
    assert forall|j: int| p <= j < p + rl.len() implies s[j] == rl[j - p] by {
        assert(s.subrange(p as int, end)[j - p] == rl[j - p]);
    }
    match e {
        ExpM::Literal(l) => {
            lemma_lex_render_literal(l, s, p);
        },
        ExpM::Unary { op, expr } => {
            let sym = symbol_name(op.kind);
            assert(sym.len() == 1);
            assert(rl == sym + render_exp(*expr));
            assert(s[p as int] == sym[0]);
            assert(fits_equality(*expr)) by {
                lemma_fits_up(*expr);
            }
            lemma_render_first(*expr);
            assert(s[p as int + 1] == render_exp(*expr)[0]);
            if op.kind == TokenType::Bang {
                assert(s[p as int] == '!');
                assert(s[p as int + 1] != '=');
            } else {
                assert(s[p as int] == '-');
            }
            assert(lex_from(s, p as int, 1) == lex_cons(
                bare_token(op.kind, 1),
                lex_from(s, p as int + 1, 1),
            ));
            lemma_sub_layout(s, p, rl, 1, rl.len() as nat);
            assert(rl.subrange(1, rl.len() as int) =~= render_exp(*expr));
            lemma_lex_render(*expr, s, (p + 1) as nat);
            lemma_join_cons(bare_token(op.kind, 1), lex_from(s, p as int + 1, 1));
            lemma_join_assoc(
                seq![bare_token(op.kind, 1)],
                rtokens(*expr),
                lex_from(s, end, 1),
            );
        },
        ExpM::Binary { op, left, right } => {
            lemma_lex_render_binary(e, s, p);
        },
        ExpM::Grouping(inner) => {
            assert(rl == "("@ + render_exp(*inner) + ")"@);
            assert(s[p as int] == '(');
            let nl = render_exp(*inner).len();
            assert(s[(p + 1 + nl) as int] == ')') by {
                assert(rl[(1 + nl) as int] == ')');
            }
            assert(lex_from(s, p as int, 1) == lex_cons(
                bare_token(TokenType::LeftBracket, 1),
                lex_from(s, p as int + 1, 1),
            ));
            lemma_sub_layout(s, p, rl, 1, (1 + nl) as nat);
            assert(rl.subrange(1, (1 + nl) as int) =~= render_exp(*inner));
            lemma_lex_render(*inner, s, (p + 1) as nat);
            assert(lex_from(s, (p + 1 + nl) as int, 1) == lex_cons(
                bare_token(TokenType::RightBracket, 1),
                lex_from(s, end, 1),
            ));
            let rest = lex_from(s, end, 1);
            lemma_join_cons(bare_token(TokenType::RightBracket, 1), rest);
            lemma_join_cons(
                bare_token(TokenType::LeftBracket, 1),
                lex_from(s, p as int + 1, 1),
            );
            lemma_join_assoc(
                rtokens(*inner),
                seq![bare_token(TokenType::RightBracket, 1)],
                rest,
            );
            lemma_join_assoc(
                seq![bare_token(TokenType::LeftBracket, 1)],
                rtokens(*inner) + seq![bare_token(TokenType::RightBracket, 1)],
                rest,
            );
            assert(seq![bare_token(TokenType::LeftBracket, 1)] + (rtokens(*inner) + seq![
                bare_token(TokenType::RightBracket, 1),
            ]) =~= rtokens(e));
        },
    }
}


/// Law: the printer and the parser are inverse. Rendering an expression the
/// grammar itself can produce and scanning and parsing the rendered text
/// yields the same expression again — every token now on line 1, nothing
/// else changed. Expressions the grammar cannot produce are out: a `-`
/// chain nested to the right, for one, renders to text the grammar reads
/// as the left-nested chain.
pub proof fn lemma_render_roundtrip(e: ExpM)
    requires
        fits_equality(e),
    ensures
        ({
            let ts = rtokens(e).push(bare_token(TokenType::EOF, 1));
            &&& lex(render_exp(e)) == Result::<Seq<TokenM>, LErrM>::Ok(ts)
            &&& sp_expression(ts, 0) == Result::<(ExpM, nat), LErrM>::Ok(
                (lines1(e), rtokens(e).len() as nat),
            )
        }),
{
    let src = render_exp(e);
    assert(src.subrange(0, src.len() as int) =~= src);
    lemma_lex_render(e, src, 0);
    assert(lex_from(src, src.len() as int, 1) == Result::<Seq<TokenM>, LErrM>::Ok(
        seq![bare_token(TokenType::EOF, 1)],
    ));
    let ts = rtokens(e).push(bare_token(TokenType::EOF, 1));
    assert(rtokens(e) + seq![bare_token(TokenType::EOF, 1)] =~= ts);
    assert(ts.subrange(0, rtokens(e).len() as int) =~= rtokens(e));
    assert(ts[rtokens(e).len() as int] == bare_token(TokenType::EOF, 1));
    assert(laid_out(e, ts, 0));
    lemma_rt_equality(e, ts, 0);
}

} // verus!
