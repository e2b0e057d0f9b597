//! Expression trees: literals, unary and binary applications, and groupings,
//! together with their mathematical model and their source rendering.
use crate::numbers::{fmt_num, format_bits, parse_num, parse_number_bits};
use crate::tokens::{spec_access_lexeme, Token, TokenM, TokenType};
use vstd::prelude::*;
use vstd::string::*;

verus! {

/// Mathematical model of a literal. A numeric literal keeps both the encoded
/// binary64 value it denotes and the lexeme it was written as.
pub enum LitM {
    Number { value: u64, text: Seq<char> },
    Bool(bool),
    Str(Seq<char>),
}

/// Mathematical model of an expression tree.
pub enum ExpM {
    Literal(LitM),
    Unary { op: TokenM, expr: Box<ExpM> },
    Binary { op: TokenM, left: Box<ExpM>, right: Box<ExpM> },
    Grouping(Box<ExpM>),
}

/// A literal value as written in the source.
#[derive(Debug)]
pub enum Literal {
    Number { value: u64, text: String },
    Bool(bool),
    String(String),
}

/// An expression tree node. Every non-literal node owns its children.
#[derive(Debug)]
pub enum ExpType {
    Literal(Literal),
    Unary { operator: Token, expression: Box<ExpType> },
    Binary { operator: Token, left: Box<ExpType>, right: Box<ExpType> },
    Grouping { expression: Box<ExpType> },
}

/// An expression as handed to the evaluator.
#[derive(Debug)]
pub struct Expression {
    pub expression_type: ExpType,
}

impl View for Literal {
    type V = LitM;

    open spec fn view(&self) -> LitM {
        match self {
            Literal::Number { value, text } => LitM::Number { value: *value, text: text@ },
            Literal::Bool(b) => LitM::Bool(*b),
            Literal::String(s) => LitM::Str(s@),
        }
    }
}

/// The model of an expression node.
pub open spec fn exp_view(e: ExpType) -> ExpM
    decreases e,
{
    match e {
        ExpType::Literal(l) => ExpM::Literal(l@),
        ExpType::Unary { operator, expression } => ExpM::Unary {
            op: operator@,
            expr: Box::new(exp_view(*expression)),
        },
        ExpType::Binary { operator, left, right } => ExpM::Binary {
            op: operator@,
            left: Box::new(exp_view(*left)),
            right: Box::new(exp_view(*right)),
        },
        ExpType::Grouping { expression } => ExpM::Grouping(Box::new(exp_view(*expression))),
    }
}

impl View for ExpType {
    type V = ExpM;

    open spec fn view(&self) -> ExpM {
        exp_view(*self)
    }
}

impl View for Expression {
    type V = ExpM;

    open spec fn view(&self) -> ExpM {
        exp_view(self.expression_type)
    }
}

impl Clone for Literal {
    fn clone(&self) -> (r: Literal)
        ensures
            r@ == self@,
    {
        match self {
            Literal::Number { value, text } => Literal::Number {
                value: *value,
                text: text.clone(),
            },
            Literal::Bool(b) => Literal::Bool(*b),
            Literal::String(s) => Literal::String(s.clone()),
        }
    }
}

impl Clone for ExpType {
    fn clone(&self) -> (r: ExpType)
        ensures
            r@ == self@,
        decreases *self,
    {
        match self {
            ExpType::Literal(l) => ExpType::Literal(l.clone()),
            ExpType::Unary { operator, expression } => ExpType::Unary {
                operator: operator.clone(),
                expression: Box::new((**expression).clone()),
            },
            ExpType::Binary { operator, left, right } => ExpType::Binary {
                operator: operator.clone(),
                left: Box::new((**left).clone()),
                right: Box::new((**right).clone()),
            },
            ExpType::Grouping { expression } => ExpType::Grouping {
                expression: Box::new((**expression).clone()),
            },
        }
    }
}

/// The source spelling of a fixed-spelling token kind; empty for kinds whose
/// text is not fixed.
pub open spec fn symbol_name(t: TokenType) -> Seq<char> {
    match t {
        TokenType::Slash => "/"@,
        TokenType::LeftBracket => "("@,
        TokenType::RightBracket => ")"@,
        TokenType::LeftSquareBracket => "["@,
        TokenType::RightSquareBracket => "]"@,
        TokenType::LeftCurlyBracket => "{"@,
        TokenType::RightCurlyBracket => "}"@,
        TokenType::Plus => "+"@,
        TokenType::Minus => "-"@,
        TokenType::Star => "*"@,
        TokenType::Equals => "="@,
        TokenType::DoubleEquals => "=="@,
        TokenType::Bang => "!"@,
        TokenType::BangEquals => "!="@,
        TokenType::Percent => "%"@,
        TokenType::Colon => ":"@,
        TokenType::Semicolon => ";"@,
        TokenType::Dot => "."@,
        TokenType::LessThan => "<"@,
        TokenType::GreaterThan => ">"@,
        TokenType::LessEquals => "<="@,
        TokenType::GreaterEquals => ">="@,
        TokenType::SingleQuote => "'"@,
        TokenType::AltQuote => "`"@,
        _ => Seq::<char>::empty(),
    }
}

/// The source rendering of a literal: numbers render as the lexeme they were
/// written as, strings with their delimiting quotes.
pub open spec fn render_lit(l: LitM) -> Seq<char> {
    match l {
        LitM::Number { text, .. } => text,
        LitM::Bool(b) => if b {
            "true"@
        } else {
            "false"@
        },
        LitM::Str(s) => "\""@ + s + "\""@,
    }
}

/// The source rendering of an expression: binary applications are spaced,
/// unary applications and groupings are not.
pub open spec fn render_exp(e: ExpM) -> Seq<char>
    decreases e,
{
    match e {
        ExpM::Literal(l) => render_lit(l),
        ExpM::Unary { op, expr } => symbol_name(op.kind) + render_exp(*expr),
        ExpM::Binary { op, left, right } => render_exp(*left) + " "@ + symbol_name(op.kind) + " "@
            + render_exp(*right),
        ExpM::Grouping(inner) => "("@ + render_exp(*inner) + ")"@,
    }
}

/// The exec spelling of a fixed-spelling token kind.
pub fn symbol(t: TokenType) -> (r: String)
    ensures
        r@ == symbol_name(t),
{
    match t {
        TokenType::Slash => String::from_str("/"),
        TokenType::LeftBracket => String::from_str("("),
        TokenType::RightBracket => String::from_str(")"),
        TokenType::LeftSquareBracket => String::from_str("["),
        TokenType::RightSquareBracket => String::from_str("]"),
        TokenType::LeftCurlyBracket => String::from_str("{"),
        TokenType::RightCurlyBracket => String::from_str("}"),
        TokenType::Plus => String::from_str("+"),
        TokenType::Minus => String::from_str("-"),
        TokenType::Star => String::from_str("*"),
        TokenType::Equals => String::from_str("="),
        TokenType::DoubleEquals => String::from_str("=="),
        TokenType::Bang => String::from_str("!"),
        TokenType::BangEquals => String::from_str("!="),
        TokenType::Percent => String::from_str("%"),
        TokenType::Colon => String::from_str(":"),
        TokenType::Semicolon => String::from_str(";"),
        TokenType::Dot => String::from_str("."),
        TokenType::LessThan => String::from_str("<"),
        TokenType::GreaterThan => String::from_str(">"),
        TokenType::LessEquals => String::from_str("<="),
        TokenType::GreaterEquals => String::from_str(">="),
        TokenType::SingleQuote => String::from_str("'"),
        TokenType::AltQuote => String::from_str("`"),
        _ => {
            let r = String::new();
            assert(r@ =~= symbol_name(t));
            r
        },
    }
}

impl ExpType {
    /// Render the expression back to source text.
    pub fn get_string(&self) -> (r: String)
        ensures
            r@ == render_exp(self@),
        decreases *self,
    {
        match self {
            ExpType::Literal(val) => val.render(),
            ExpType::Unary { operator, expression } => {
                let mut s = symbol(operator.token_type);
                let inner = expression.get_string();
                s.append(inner.as_str());
                s
            },
            ExpType::Binary { operator, left, right } => {
                let mut s = left.get_string();
                let op = symbol(operator.token_type);
                s.append(" ");
                s.append(op.as_str());
                s.append(" ");
                let r = right.get_string();
                s.append(r.as_str());
                s
            },
            ExpType::Grouping { expression } => {
                let mut s = String::from_str("(");
                let inner = expression.get_string();
                s.append(inner.as_str());
                s.append(")");
                s
            },
        }
    }
}

/// The textual form of a literal's value: the number's decimal rendering, the
/// spelled-out boolean, or the raw string content.
pub open spec fn lit_text(l: LitM) -> Seq<char> {
    match l {
        LitM::Number { value, .. } => fmt_num(value),
        LitM::Bool(b) => if b {
            "true"@
        } else {
            "false"@
        },
        LitM::Str(s) => s,
    }
}

/// What `new_number` yields for a token: the parsed literal, or the error
/// that the lexeme does not denote a number, raised at the token's line.
pub open spec fn spec_new_number(t: TokenM) -> Result<LitM, crate::errors::LErrM> {
    let lex = spec_access_lexeme(t);
    match parse_num(lex) {
        Result::Ok(v) => Result::Ok(LitM::Number { value: v, text: lex }),
        Result::Err(reason) => Result::Err(
            crate::errors::LErrM {
                kind: crate::errors::ErrM::ErrorNotANumber(lex, Option::Some(reason)),
                line: t.line,
            },
        ),
    }
}

impl Literal {
    /// Parse a number token's lexeme into a numeric literal.
    pub fn new_number(token: &Token) -> (r: Result<Literal, crate::errors::LunalaErrors>)
        ensures
            match r {
                Result::Ok(l) => spec_new_number(token@) == Result::<
                    LitM,
                    crate::errors::LErrM,
                >::Ok(l@),
                Result::Err(e) => spec_new_number(token@) == Result::<
                    LitM,
                    crate::errors::LErrM,
                >::Err(e@),
            },
    {
        let lex = token.access_lexeme();
        match parse_number_bits(lex.as_str()) {
            Result::Ok(value) => Result::Ok(Literal::Number { value, text: lex }),
            Result::Err(reason) => Result::Err(
                crate::errors::LunalaErrors::new(
                    crate::errors::ErrorTypes::ErrorNotANumber(lex, Option::Some(reason)),
                    token.line,
                ),
            ),
        }
    }

    /// The textual form of the literal's value.
    pub fn get_string(&self) -> (r: String)
        ensures
            r@ == lit_text(self@),
    {
        match self {
            Literal::Number { value, .. } => format_bits(*value),
            Literal::Bool(b) => {
                if *b {
                    String::from_str("true")
                } else {
                    String::from_str("false")
                }
            },
            Literal::String(s) => s.clone(),
        }
    }

    /// Render the literal as it would stand in source text.
    pub fn render(&self) -> (r: String)
        ensures
            r@ == render_lit(self@),
    {
        match self {
            Literal::Number { text, .. } => text.clone(),
            Literal::Bool(b) => {
                if *b {
                    String::from_str("true")
                } else {
                    String::from_str("false")
                }
            },
            Literal::String(s) => {
                let mut r = String::from_str("\"");
                r.append(s.as_str());
                r.append("\"");
                r
            },
        }
    }

    /// The encoded numeric value, or the error that this literal is not a
    /// number, raised at the caller's source line.
    pub fn _get_number(&self, line: usize) -> (r: Result<u64, crate::errors::LunalaErrors>)
        ensures
            match r {
                Result::Ok(v) => spec_get_number(self@, line as nat) == Result::<
                    u64,
                    crate::errors::LErrM,
                >::Ok(v),
                Result::Err(e) => spec_get_number(self@, line as nat) == Result::<
                    u64,
                    crate::errors::LErrM,
                >::Err(e@),
            },
    {
        match self {
            Literal::Number { value, .. } => Result::Ok(*value),
            _ => Result::Err(
                crate::errors::LunalaErrors::new(
                    crate::errors::ErrorTypes::ErrorNotANumber(self.get_string(), Option::None),
                    line,
                ),
            ),
        }
    }
}

/// What `get_number` yields for a literal, with the line the request is made
/// at.
pub open spec fn spec_get_number(l: LitM, line: nat) -> Result<u64, crate::errors::LErrM> {
    match l {
        LitM::Number { value, .. } => Result::Ok(value),
        _ => Result::Err(
            crate::errors::LErrM {
                kind: crate::errors::ErrM::ErrorNotANumber(lit_text(l), Option::None),
                line: line,
            },
        ),
    }
}

impl Expression {
    pub fn new(expression_type: ExpType) -> (r: Expression)
        ensures
            r@ == expression_type@,
    {
        Expression { expression_type }
    }

    /// The expression tree this expression holds.
    pub fn _get_type(&self) -> (r: &ExpType)
        ensures
            r@ == self@,
    {
        &self.expression_type
    }
}

} // verus!
