//! The closed error taxonomy shared by the scanner, the parser and the
//! evaluator, each error carrying the source line it was raised at.
use crate::expressions::{ExpM, ExpType};
use crate::tokens::{Token, TokenM};
use vstd::prelude::*;
use vstd::string::*;

verus! {

/// Mathematical model of an error kind.
pub enum ErrM {
    InvalidToken(Seq<char>),
    UnterminatedString,
    NoPreviousItem(nat),
    ErrorNotANumber(Seq<char>, Option<Seq<char>>),
    Error(Seq<char>),
    ExpressionExpected(Seq<char>),
    NotABooleanValue(Seq<char>),
    InvalidUnaryExpression(TokenM, ExpM),
}

/// Mathematical model of an error together with its source line.
pub struct LErrM {
    pub kind: ErrM,
    pub line: nat,
}

/// The kinds of error the pipeline can raise.
#[derive(Debug)]
pub enum ErrorTypes {
    /// A character sequence matching no token rule.
    InvalidToken(String),
    /// A string literal opened but never closed.
    UnterminatedString,
    /// The previously consumed token was asked for before any was consumed.
    NoPreviousItem(usize),
    /// A lexeme or operand that does not denote a number, with the underlying
    /// reason when one is known.
    ErrorNotANumber(String, Option<String>),
    /// A grammar-consumption failure or an unrecognized binary operator.
    Error(String),
    /// The parser reached a primary position with no matching alternative.
    ExpressionExpected(String),
    /// Truthiness was asked of an expression that is not a boolean literal.
    NotABooleanValue(String),
    /// A unary operator applied to an unsupported operand shape.
    InvalidUnaryExpression(Token, ExpType),
}

impl View for ErrorTypes {
    type V = ErrM;

    open spec fn view(&self) -> ErrM {
        match self {
            ErrorTypes::InvalidToken(s) => ErrM::InvalidToken(s@),
            ErrorTypes::UnterminatedString => ErrM::UnterminatedString,
            ErrorTypes::NoPreviousItem(p) => ErrM::NoPreviousItem(*p as nat),
            ErrorTypes::ErrorNotANumber(s, r) => ErrM::ErrorNotANumber(
                s@,
                match r {
                    Option::Some(m) => Option::Some(m@),
                    Option::None => Option::None,
                },
            ),
            ErrorTypes::Error(s) => ErrM::Error(s@),
            ErrorTypes::ExpressionExpected(s) => ErrM::ExpressionExpected(s@),
            ErrorTypes::NotABooleanValue(s) => ErrM::NotABooleanValue(s@),
            ErrorTypes::InvalidUnaryExpression(t, e) => ErrM::InvalidUnaryExpression(t@, e@),
        }
    }
}

/// An error of the pipeline: its kind and the source line it was raised at.
#[derive(Debug)]
pub struct LunalaErrors {
    pub e_type: ErrorTypes,
    pub line: usize,
}

impl View for LunalaErrors {
    type V = LErrM;

    open spec fn view(&self) -> LErrM {
        LErrM { kind: self.e_type@, line: self.line as nat }
    }
}

impl LunalaErrors {
    pub fn new(e_type: ErrorTypes, line: usize) -> (r: LunalaErrors)
        ensures
            r@ == (LErrM { kind: e_type@, line: line as nat }),
    {
        LunalaErrors { e_type, line }
    }
}


/// The decimal digits of `n`, most significant first.
pub open spec fn dec_rep(n: nat) -> Seq<char>
    decreases n,
{
    if n < 10 {
        seq![((48 + n) as u8) as char]
    } else {
        dec_rep(n / 10).push(((48 + n % 10) as u8) as char)
    }
}

/// Render a number in decimal.
fn dec_string(n: usize) -> (r: String)
    ensures
        r@ == dec_rep(n as nat),
    decreases n,
{
    if n < 10 {
        let mut s = String::new();
        crate::scanner::push_char(&mut s, ((48 + (n as u8)) as u8) as char);
        assert(s@ =~= dec_rep(n as nat));
        s
    } else {
        let mut s = dec_string(n / 10);
        crate::scanner::push_char(&mut s, ((48 + ((n % 10) as u8)) as u8) as char);
        assert(s@ =~= dec_rep(n as nat));
        s
    }
}

/// The message of an error kind.
pub open spec fn spec_error_message(k: ErrM) -> Seq<char> {
    match k {
        ErrM::InvalidToken(token) => "Invalid token: `"@ + token + "`"@,
        ErrM::UnterminatedString => "Unterminated string"@,
        ErrM::NoPreviousItem(location) => "No previous item found at location: "@ + dec_rep(
            location,
        ),
        ErrM::ErrorNotANumber(token, reason) => "Cannot convert `"@ + token + "` to a number"@
            + match reason {
            Option::Some(r) => ", reason -> "@ + r,
            Option::None => Seq::<char>::empty(),
        },
        ErrM::Error(message) => "Error occurred: "@ + message,
        ErrM::ExpressionExpected(message) => "Expected an expression, got: "@ + message,
        ErrM::NotABooleanValue(val) => "Expected a boolean, found "@ + val,
        ErrM::InvalidUnaryExpression(operator, exp) => "Invalid unary expression: ["@
            + crate::tokens::spec_access_lexeme(operator) + ", "@ + crate::expressions::render_exp(
            exp,
        ) + "]"@,
    }
}

/// The display form of an error: its message and the line it was raised
/// at.
pub open spec fn spec_error_display(e: LErrM) -> Seq<char> {
    spec_error_message(e.kind) + " at line "@ + dec_rep(e.line)
}

impl ErrorTypes {
    /// The message this error kind carries.
    pub fn map_error(&self) -> (r: String)
        ensures
            r@ == spec_error_message(self@),
    {
        match self {
            ErrorTypes::InvalidToken(token) => {
                let mut s = String::from_str("Invalid token: `");
                s.append(token.as_str());
                s.append("`");
                s
            },
            ErrorTypes::UnterminatedString => String::from_str("Unterminated string"),
            ErrorTypes::NoPreviousItem(location) => {
                let mut s = String::from_str("No previous item found at location: ");
                let loc = dec_string(*location);
                s.append(loc.as_str());
                s
            },
            ErrorTypes::ErrorNotANumber(token, reason) => {
                let mut s = String::from_str("Cannot convert `");
                s.append(token.as_str());
                s.append("` to a number");
                match reason {
                    Option::Some(r) => {
                        s.append(", reason -> ");
                        s.append(r.as_str());
                    },
                    Option::None => {},
                }
                s
            },
            ErrorTypes::Error(message) => {
                let mut s = String::from_str("Error occurred: ");
                s.append(message.as_str());
                s
            },
            ErrorTypes::ExpressionExpected(message) => {
                let mut s = String::from_str("Expected an expression, got: ");
                s.append(message.as_str());
                s
            },
            ErrorTypes::NotABooleanValue(val) => {
                let mut s = String::from_str("Expected a boolean, found ");
                s.append(val.as_str());
                s
            },
            ErrorTypes::InvalidUnaryExpression(operator, exp) => {
                let mut s = String::from_str("Invalid unary expression: [");
                let lexeme = operator.access_lexeme();
                s.append(lexeme.as_str());
                s.append(", ");
                let rendered = exp.get_string();
                s.append(rendered.as_str());
                s.append("]");
                s
            },
        }
    }
}

impl LunalaErrors {
    /// The display form of this error, message and line together.
    pub fn message(&self) -> (r: String)
        ensures
            r@ == spec_error_display(self@),
    {
        let mut s = self.e_type.map_error();
        s.append(" at line ");
        let line = dec_string(self.line);
        s.append(line.as_str());
        s
    }
}

} // verus!
