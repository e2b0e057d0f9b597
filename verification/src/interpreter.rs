//! The tree-walking evaluator: expressions reduce to runtime values under
//! the value-kind rules — arithmetic and ordering demand numbers on both
//! sides, equality compares across kinds without error, and truthiness is
//! defined on boolean literals alone. `eval_expr` is the mathematical
//! description; `Interpreter::visit_expression` is proved to implement it.
use crate::errors::{ErrM, ErrorTypes, LErrM, LunalaErrors};
use crate::expressions::{
    exp_view, render_exp, spec_get_number, ExpM, ExpType, Expression, LitM, Literal,
};
use crate::numbers::{
    add_bits, add_num, div_bits, div_num, eq_bits, eq_num, fmt_num, format_bits, ge_bits, ge_num,
    gt_bits, gt_num, le_bits, le_num, lt_bits, lt_num, mul_bits, mul_num, neg_num, negate_bits,
    sub_bits, sub_num,
};
use crate::parser::{sp_program, Parser};
use crate::scanner::{lex, Scanner};
use crate::statement::{Statement, Statements, StmtM};
use crate::tokens::{TokenM, TokenType};
use vstd::prelude::*;
use vstd::string::*;

verus! {

/// Mathematical model of a runtime value.
pub enum ObjM {
    Num(u64),
    Bool(bool),
    Str(Seq<char>),
}

/// A runtime value: a number carried as its binary64 encoding, a boolean,
/// or a string.
#[derive(Debug)]
pub enum Object {
    Number(u64),
    Bool(bool),
    String(String),
}

impl View for Object {
    type V = ObjM;

    open spec fn view(&self) -> ObjM {
        match self {
            Object::Number(n) => ObjM::Num(*n),
            Object::Bool(b) => ObjM::Bool(*b),
            Object::String(s) => ObjM::Str(s@),
        }
    }
}

impl Clone for Object {
    fn clone(&self) -> (r: Object)
        ensures
            r@ == self@,
    {
        match self {
            Object::Number(n) => Object::Number(*n),
            Object::Bool(b) => Object::Bool(*b),
            Object::String(s) => Object::String(s.clone()),
        }
    }
}

/// The runtime value a literal denotes.
pub open spec fn obj_of_lit(l: LitM) -> ObjM {
    match l {
        LitM::Number { value, .. } => ObjM::Num(value),
        LitM::Bool(b) => ObjM::Bool(b),
        LitM::Str(s) => ObjM::Str(s),
    }
}

/// The textual form of a runtime value: the number's decimal rendering, the
/// spelled-out boolean, or the raw string content with no quoting added.
pub open spec fn obj_text(o: ObjM) -> Seq<char> {
    match o {
        ObjM::Num(n) => fmt_num(n),
        ObjM::Bool(b) => if b {
            "true"@
        } else {
            "false"@
        },
        ObjM::Str(s) => s,
    }
}

/// The encoded number a value holds, or the error that it is not a number,
/// raised at the given source line.
pub open spec fn spec_obj_number(o: ObjM, line: nat) -> Result<u64, LErrM> {
    match o {
        ObjM::Num(n) => Result::Ok(n),
        _ => Result::Err(
            LErrM { kind: ErrM::ErrorNotANumber(obj_text(o), Option::None), line: line },
        ),
    }
}

/// Truthiness: defined on boolean literals alone; asking it of any other
/// expression shape is an error at the given source line, never a coercion.
pub open spec fn spec_truthy(e: ExpM, line: nat) -> Result<bool, LErrM> {
    match e {
        ExpM::Literal(LitM::Bool(val)) => Result::Ok(val),
        _ => Result::Err(LErrM { kind: ErrM::NotABooleanValue(render_exp(e)), line: line }),
    }
}

/// Structural equality of runtime values: same-kind values compare by
/// value, values of different kinds are never equal, and no comparison
/// errs.
pub open spec fn spec_equal(l: ObjM, r: ObjM) -> bool {
    match (l, r) {
        (ObjM::Bool(a), ObjM::Bool(b)) => a == b,
        (ObjM::Num(a), ObjM::Num(b)) => eq_num(a, b),
        (ObjM::Str(a), ObjM::Str(b)) => a == b,
        _ => false,
    }
}

/// Both operands as encoded numbers, the left one checked first; a failure
/// is raised at the given source line.
pub open spec fn spec_num_pair(l: ObjM, r: ObjM, line: nat) -> Result<(u64, u64), LErrM> {
    match spec_obj_number(l, line) {
        Result::Err(e) => Result::Err(e),
        Result::Ok(a) => match spec_obj_number(r, line) {
            Result::Err(e) => Result::Err(e),
            Result::Ok(b) => Result::Ok((a, b)),
        },
    }
}

/// The outcome of a binary operator token on two evaluated operands; every
/// failure is raised at the operator's source line.
pub open spec fn eval_binop(op: TokenM, l: ObjM, r: ObjM) -> Result<ObjM, LErrM> {
    match op.kind {
        TokenType::Plus => match spec_num_pair(l, r, op.line) {
            Result::Ok((a, b)) => Result::Ok(ObjM::Num(add_num(a, b))),
            Result::Err(e) => Result::Err(e),
        },
        TokenType::Minus => match spec_num_pair(l, r, op.line) {
            Result::Ok((a, b)) => Result::Ok(ObjM::Num(sub_num(a, b))),
            Result::Err(e) => Result::Err(e),
        },
        TokenType::Slash => match spec_num_pair(l, r, op.line) {
            Result::Ok((a, b)) => Result::Ok(ObjM::Num(div_num(a, b))),
            Result::Err(e) => Result::Err(e),
        },
        TokenType::Star => match spec_num_pair(l, r, op.line) {
            Result::Ok((a, b)) => Result::Ok(ObjM::Num(mul_num(a, b))),
            Result::Err(e) => Result::Err(e),
        },
        TokenType::GreaterThan => match spec_num_pair(l, r, op.line) {
            Result::Ok((a, b)) => Result::Ok(ObjM::Bool(gt_num(a, b))),
            Result::Err(e) => Result::Err(e),
        },
        TokenType::GreaterEquals => match spec_num_pair(l, r, op.line) {
            Result::Ok((a, b)) => Result::Ok(ObjM::Bool(ge_num(a, b))),
            Result::Err(e) => Result::Err(e),
        },
        TokenType::LessThan => match spec_num_pair(l, r, op.line) {
            Result::Ok((a, b)) => Result::Ok(ObjM::Bool(lt_num(a, b))),
            Result::Err(e) => Result::Err(e),
        },
        TokenType::LessEquals => match spec_num_pair(l, r, op.line) {
            Result::Ok((a, b)) => Result::Ok(ObjM::Bool(le_num(a, b))),
            Result::Err(e) => Result::Err(e),
        },
        TokenType::BangEquals => Result::Ok(ObjM::Bool(!spec_equal(l, r))),
        TokenType::DoubleEquals => Result::Ok(ObjM::Bool(spec_equal(l, r))),
        _ => Result::Err(
            LErrM { kind: ErrM::Error("Not a binary operator"@), line: op.line },
        ),
    }
}

/// The value an expression evaluates to, or the first error on the way, each
/// error raised at its operator's source line. Negation is defined only on a
/// numeric literal operand standing directly under the operator; both
/// operands of a binary application are evaluated, left before right, before
/// the operator is applied.
pub open spec fn eval_expr(e: ExpM) -> Result<ObjM, LErrM>
    decreases e,
{
    match e {
        ExpM::Literal(l) => Result::Ok(obj_of_lit(l)),
        ExpM::Unary { op, expr } => {
            if op.kind == TokenType::Minus {
                match *expr {
                    ExpM::Literal(l) => match spec_get_number(l, op.line) {
                        Result::Ok(n) => Result::Ok(ObjM::Num(neg_num(n))),
                        Result::Err(x) => Result::Err(x),
                    },
                    _ => Result::Err(
                        LErrM { kind: ErrM::InvalidUnaryExpression(op, *expr), line: op.line },
                    ),
                }
            } else if op.kind == TokenType::Bang {
                match spec_truthy(*expr, op.line) {
                    Result::Ok(b) => Result::Ok(ObjM::Bool(!b)),
                    Result::Err(x) => Result::Err(x),
                }
            } else {
                Result::Err(LErrM { kind: ErrM::InvalidUnaryExpression(op, *expr), line: op.line })
            }
        },
        ExpM::Binary { op, left, right } => {
            match eval_expr(*left) {
                Result::Err(x) => Result::Err(x),
                Result::Ok(l) => match eval_expr(*right) {
                    Result::Err(x) => Result::Err(x),
                    Result::Ok(r) => eval_binop(op, l, r),
                },
            }
        },
        ExpM::Grouping(inner) => eval_expr(*inner),
    }
}

/// The outputs one statement contributes: a print statement yields the
/// rendering of its value, a bare expression statement yields none.
pub open spec fn exec_stmt(st: StmtM) -> Result<Seq<Seq<char>>, LErrM> {
    match st {
        StmtM::Expr(e) => match eval_expr(e) {
            Result::Ok(_) => Result::Ok(Seq::<Seq<char>>::empty()),
            Result::Err(x) => Result::Err(x),
        },
        StmtM::Print(e) => match eval_expr(e) {
            Result::Ok(o) => Result::Ok(seq![obj_text(o)]),
            Result::Err(x) => Result::Err(x),
        },
    }
}

/// The outputs of running the statements in order, stopping at the first
/// error.
pub open spec fn exec_stmts(stmts: Seq<StmtM>) -> Result<Seq<Seq<char>>, LErrM>
    decreases stmts.len(),
{
    if stmts.len() == 0 {
        Result::Ok(Seq::<Seq<char>>::empty())
    } else {
        match exec_stmt(stmts[0]) {
            Result::Err(x) => Result::Err(x),
            Result::Ok(out) => match exec_stmts(stmts.skip(1)) {
                Result::Err(x) => Result::Err(x),
                Result::Ok(rest) => Result::Ok(out + rest),
            },
        }
    }
}

/// What the whole pipeline yields for a source text: scan, parse, then run.
pub open spec fn spec_interpret(src: Seq<char>) -> Result<Seq<Seq<char>>, LErrM> {
    match lex(src) {
        Result::Err(e) => Result::Err(e),
        Result::Ok(ts) => match sp_program(ts, 0) {
            Result::Err(e) => Result::Err(e),
            Result::Ok(sts) => exec_stmts(sts),
        },
    }
}

/// The evaluator. It holds no state: each run owns its own expression tree.
pub struct Interpreter {}

impl Object {
    /// The runtime value a literal denotes.
    pub fn from_literal(literal: Literal) -> (r: Object)
        ensures
            r@ == obj_of_lit(literal@),
    {
        match literal {
            Literal::Number { value, .. } => Object::Number(value),
            Literal::Bool(b) => Object::Bool(b),
            Literal::String(s) => Object::String(s),
        }
    }

    /// The textual form of the value, as a print statement writes it.
    pub fn get_string(&self) -> (r: String)
        ensures
            r@ == obj_text(self@),
    {
        match self {
            Object::Number(n) => format_bits(*n),
            Object::Bool(b) => {
                if *b {
                    String::from_str("true")
                } else {
                    String::from_str("false")
                }
            },
            Object::String(s) => s.clone(),
        }
    }

    /// The encoded number this value holds, or the error that it is not a
    /// number, raised at the caller's source line.
    pub fn _get_number(&self, line: usize) -> (r: Result<u64, LunalaErrors>)
        ensures
            match r {
                Result::Ok(v) => spec_obj_number(self@, line as nat) == Result::<u64, LErrM>::Ok(
                    v,
                ),
                Result::Err(e) => spec_obj_number(self@, line as nat) matches Result::Err(em) && e@
                    == em,
            },
    {
        match self {
            Object::Number(n) => Result::Ok(*n),
            _ => Result::Err(
                LunalaErrors::new(
                    ErrorTypes::ErrorNotANumber(self.get_string(), Option::None),
                    line,
                ),
            ),
        }
    }
}

impl Interpreter {
    /// Evaluate one expression tree to a runtime value.
    pub fn visit_expression(expression: &ExpType) -> (r: Result<Object, LunalaErrors>)
        ensures
            match r {
                Result::Ok(o) => eval_expr(expression@) == Result::<ObjM, LErrM>::Ok(o@),
                Result::Err(e) => eval_expr(expression@) matches Result::Err(em) && e@ == em,
            },
        decreases expression,
    {
        match expression {
            ExpType::Literal(literal) => Result::Ok(Object::from_literal(literal.clone())),
            ExpType::Unary { operator, expression: operand } => {
                let line = operator.line;
                match (operator.token_type(), &**operand) {
                    (TokenType::Minus, ExpType::Literal(literal)) => {
                        proof {
                            assert(exp_view(**operand) == ExpM::Literal(literal@));
                        }
                        let n = literal._get_number(line)?;
                        Result::Ok(Object::Number(negate_bits(n)))
                    },
                    (TokenType::Bang, operand_exp) => {
                        let b = Self::truthy(operand_exp, line)?;
                        Result::Ok(Object::Bool(!b))
                    },
                    _ => Result::Err(
                        LunalaErrors::new(
                            ErrorTypes::InvalidUnaryExpression(
                                operator.clone(),
                                (**operand).clone(),
                            ),
                            line,
                        ),
                    ),
                }
            },
            ExpType::Binary { operator, left, right } => {
                let l = Self::visit_expression(left)?;
                let r = Self::visit_expression(right)?;
                let line = operator.line;
                match operator.token_type() {
                    TokenType::Plus => Result::Ok(
                        Object::Number(add_bits(l._get_number(line)?, r._get_number(line)?)),
                    ),
                    TokenType::Minus => Result::Ok(
                        Object::Number(sub_bits(l._get_number(line)?, r._get_number(line)?)),
                    ),
                    TokenType::Slash => Result::Ok(
                        Object::Number(div_bits(l._get_number(line)?, r._get_number(line)?)),
                    ),
                    TokenType::Star => Result::Ok(
                        Object::Number(mul_bits(l._get_number(line)?, r._get_number(line)?)),
                    ),
                    TokenType::GreaterThan => Result::Ok(
                        Object::Bool(gt_bits(l._get_number(line)?, r._get_number(line)?)),
                    ),
                    TokenType::GreaterEquals => Result::Ok(
                        Object::Bool(ge_bits(l._get_number(line)?, r._get_number(line)?)),
                    ),
                    TokenType::LessThan => Result::Ok(
                        Object::Bool(lt_bits(l._get_number(line)?, r._get_number(line)?)),
                    ),
                    TokenType::LessEquals => Result::Ok(
                        Object::Bool(le_bits(l._get_number(line)?, r._get_number(line)?)),
                    ),
                    TokenType::BangEquals => Result::Ok(Object::Bool(!Self::equal(&l, &r))),
                    TokenType::DoubleEquals => Result::Ok(Object::Bool(Self::equal(&l, &r))),
                    _ => Result::Err(
                        LunalaErrors::new(
                            ErrorTypes::Error(String::from_str("Not a binary operator")),
                            line,
                        ),
                    ),
                }
            },
            ExpType::Grouping { expression: inner } => Self::visit_expression(inner),
        }
    }

    /// Truthiness of an expression: the value of a boolean literal, an error
    /// at the caller's source line for every other shape.
    pub fn truthy(exp: &ExpType, line: usize) -> (r: Result<bool, LunalaErrors>)
        ensures
            match r {
                Result::Ok(b) => spec_truthy(exp@, line as nat) == Result::<bool, LErrM>::Ok(b),
                Result::Err(e) => spec_truthy(exp@, line as nat) matches Result::Err(em) && e@
                    == em,
            },
    {
        match exp {
            ExpType::Literal(Literal::Bool(val)) => Result::Ok(*val),
            _ => Result::Err(
                LunalaErrors::new(ErrorTypes::NotABooleanValue(exp.get_string()), line),
            ),
        }
    }

    /// Structural equality of two runtime values.
    pub fn equal(left: &Object, right: &Object) -> (r: bool)
        ensures
            r == spec_equal(left@, right@),
    {
        match (left, right) {
            (Object::Bool(l), Object::Bool(r)) => *l == *r,
            (Object::Number(l), Object::Number(r)) => eq_bits(*l, *r),
            (Object::String(l), Object::String(r)) => *l == *r,
            _ => false,
        }
    }

    /// Evaluate one expression to its runtime value.
    pub fn interpret(expression: Expression) -> (r: Result<Object, LunalaErrors>)
        ensures
            match r {
                Result::Ok(o) => eval_expr(expression@) == Result::<ObjM, LErrM>::Ok(o@),
                Result::Err(e) => eval_expr(expression@) matches Result::Err(em) && e@ == em,
            },
    {
        Self::visit_expression(expression._get_type())
    }

    /// Run the statements in order, collecting the print outputs, and stop
    /// at the first error.
    pub fn evaluate(statements: &Statements) -> (r: Result<Vec<String>, LunalaErrors>)
        ensures
            match r {
                Result::Ok(v) => exec_stmts(statements.deep_view()) == Result::<
                    Seq<Seq<char>>,
                    LErrM,
                >::Ok(v.deep_view()),
                Result::Err(e) => exec_stmts(statements.deep_view()) matches Result::Err(em) && e@
                    == em,
            },
    {
        let ghost all = statements.deep_view();
        let mut outputs: Vec<String> = Vec::new();
        let mut i: usize = 0;
        proof {
            assert(all.skip(0) =~= all);
            assert(outputs.deep_view() =~= Seq::<Seq<char>>::empty());
            match exec_stmts(all) {
                Result::Ok(outs) => {
                    assert(Seq::<Seq<char>>::empty() + outs =~= outs);
                },
                Result::Err(_) => {},
            }
        }
        while i < statements.len()
            invariant
                i <= statements@.len(),
                all == statements.deep_view(),
                all.len() == statements@.len(),
                match exec_stmts(all.skip(i as int)) {
                    Result::Ok(outs) => exec_stmts(all) == Result::<Seq<Seq<char>>, LErrM>::Ok(
                        outputs.deep_view() + outs,
                    ),
                    Result::Err(x) => exec_stmts(all) == Result::<Seq<Seq<char>>, LErrM>::Err(x),
                },
            decreases statements@.len() - i,
        {
            let ghost rest = all.skip(i as int);
            proof {
                assert(statements.deep_view()[i as int] == statements@[i as int].deep_view());
                assert(rest[0] == all[i as int]);
                assert(rest.skip(1) =~= all.skip(i as int + 1));
            }
            let ghost predeep = outputs.deep_view();
            match &statements[i] {
                Statement::Expression(st) => {
                    Self::visit_expression(&st.expression)?;
                },
                Statement::Print(p) => {
                    let o = Self::visit_expression(&p.expression)?;
                    let text = o.get_string();
                    let ghost pre = outputs@;
                    outputs.push(text);
                    proof {
                        assert forall|k: int| 0 <= k < outputs@.len() implies outputs.deep_view()[k]
                            == predeep.push(obj_text(o@))[k] by {
                            assert(outputs.deep_view()[k] == outputs@[k].deep_view());
                            if k < pre.len() {
                                assert(outputs@[k] == pre[k]);
                                assert(predeep[k] == pre[k].deep_view());
                            }
                        }
                        assert(outputs.deep_view().len() == outputs@.len());
                        assert(predeep.len() == pre.len());
                        assert(outputs.deep_view() =~= predeep.push(obj_text(o@)));
                    }
                },
            }
            i = i + 1;
            proof {
                match exec_stmts(all.skip(i as int)) {
                    Result::Ok(outs) => {
                        assert(predeep + (exec_stmt(all[i - 1])->Ok_0 + outs)
                            =~= outputs.deep_view() + outs);
                    },
                    Result::Err(_) => {},
                }
            }
        }
        proof {
            assert(all.skip(all.len() as int) =~= Seq::<StmtM>::empty());
            match exec_stmts(all) {
                Result::Ok(outs) => {
                    assert(outputs.deep_view() + Seq::<Seq<char>>::empty() =~= outputs.deep_view());
                },
                Result::Err(_) => {},
            }
        }
        Result::Ok(outputs)
    }
}

/// Run the whole pipeline on a source text: scan it into tokens, parse the
/// tokens into statements, and evaluate the statements, yielding the print
/// outputs in order or the first error on the way.
pub fn interpret(buffer: &str) -> (r: Result<Vec<String>, LunalaErrors>)
    requires
        buffer@.len() < usize::MAX,
    ensures
        match r {
            Result::Ok(v) => spec_interpret(buffer@) == Result::<Seq<Seq<char>>, LErrM>::Ok(
                v.deep_view(),
            ),
            Result::Err(e) => spec_interpret(buffer@) matches Result::Err(em) && e@ == em,
        },
{
    let mut scanner = Scanner::new(buffer);
    let tokens = match scanner.scan_tokens() {
        Result::Ok(ts) => ts,
        Result::Err(e) => {
            return Result::Err(e);
        },
    };
    proof {
        match lex(buffer@) {
            Result::Ok(ts) => {
                assert(Seq::<crate::tokens::TokenM>::empty() + ts =~= ts);
            },
            Result::Err(_) => {},
        }
    }
    let mut parser = Parser::new(tokens);
    let statements = match parser.parse() {
        Result::Ok(sts) => sts,
        Result::Err(e) => {
            return Result::Err(e);
        },
    };
    Interpreter::evaluate(&statements)
}

} // verus!
