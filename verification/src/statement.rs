//! Statements: a program is an ordered sequence of bare expression
//! statements and print statements.
use crate::expressions::{render_exp, ExpM, ExpType};
use vstd::prelude::*;
use vstd::string::*;

verus! {

/// Mathematical model of a statement.
pub enum StmtM {
    Expr(ExpM),
    Print(ExpM),
}

/// A program: statements executed in order.
pub type Statements = Vec<Statement>;

/// A statement: either a bare expression whose value is discarded, or a
/// print statement whose value is written to the output sink.
#[derive(Debug)]
pub enum Statement {
    Expression(Expression),
    Print(PrintExpression),
}

/// A bare expression statement.
#[derive(Debug)]
pub struct Expression {
    pub expression: ExpType,
}

/// A print statement.
#[derive(Debug)]
pub struct PrintExpression {
    pub expression: ExpType,
}

impl View for Statement {
    type V = StmtM;

    open spec fn view(&self) -> StmtM {
        match self {
            Statement::Expression(e) => StmtM::Expr(e.expression@),
            Statement::Print(p) => StmtM::Print(p.expression@),
        }
    }
}

impl DeepView for Statement {
    type V = StmtM;

    open spec fn deep_view(&self) -> StmtM {
        self.view()
    }
}

/// Access to the expression a statement evaluates.
pub trait StatementTrait {
    /// The model of the expression this statement evaluates.
    spec fn spec_expression(&self) -> ExpM;

    /// The expression this statement evaluates.
    fn expression(&self) -> (e: ExpType)
        ensures
            e@ == self.spec_expression(),
    ;
}

impl StatementTrait for Expression {
    open spec fn spec_expression(&self) -> ExpM {
        self.expression@
    }

    fn expression(&self) -> (e: ExpType)
        ensures
            e@ == self.spec_expression(),
    {
        self.expression.clone()
    }
}

impl StatementTrait for PrintExpression {
    open spec fn spec_expression(&self) -> ExpM {
        self.expression@
    }

    fn expression(&self) -> (e: ExpType)
        ensures
            e@ == self.spec_expression(),
    {
        self.expression.clone()
    }
}

impl StatementTrait for Statement {
    open spec fn spec_expression(&self) -> ExpM {
        match self {
            Statement::Expression(e) => e.spec_expression(),
            Statement::Print(p) => p.spec_expression(),
        }
    }

    fn expression(&self) -> (e: ExpType)
        ensures
            e@ == self.spec_expression(),
    {
        match self {
            Statement::Expression(e) => e.expression(),
            Statement::Print(p) => p.expression(),
        }
    }
}

/// The descriptive rendering of a statement.
pub open spec fn spec_statement_string(s: StmtM) -> Seq<char> {
    match s {
        StmtM::Expr(e) => "Expression("@ + render_exp(e) + ")"@,
        StmtM::Print(e) => "Print("@ + render_exp(e) + ")"@,
    }
}

impl Statement {
    /// Describe the statement, with its expression rendered as source text.
    pub fn get_string(&self) -> (r: String)
        ensures
            r@ == spec_statement_string(self@),
    {
        match self {
            Statement::Expression(e) => {
                let mut s = String::from_str("Expression(");
                let inner = e.expression.get_string();
                s.append(inner.as_str());
                s.append(")");
                s
            },
            Statement::Print(p) => {
                let mut s = String::from_str("Print(");
                let inner = p.expression.get_string();
                s.append(inner.as_str());
                s.append(")");
                s
            },
        }
    }

    /// Wrap an expression as a print statement.
    pub fn new_print(expression: ExpType) -> (r: PrintExpression)
        ensures
            r.expression@ == expression@,
    {
        PrintExpression { expression }
    }

    /// Wrap an expression as a bare expression statement.
    pub fn new_expression(expression: ExpType) -> (r: Expression)
        ensures
            r.expression@ == expression@,
    {
        Expression { expression }
    }
}

} // verus!
