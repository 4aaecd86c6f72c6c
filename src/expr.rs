use vstd::prelude::*;

verus! {

/// The syntax tree produced by the parser.
#[derive(Debug, PartialEq)]
pub enum Expr {
    /// An integer literal, `123`.
    MyInt(u8),
    /// A variable name made of letters.
    MyVar(String),
    /// A function of one parameter, `\a -> body`.
    MyFunction(String, Box<Expr>),
}

/// The mathematical value of an [`Expr`]: names are character sequences.
pub enum Term {
    Int(u8),
    Var(Seq<char>),
    Fun(Seq<char>, Box<Term>),
}

/// Why a rule did not match.
#[derive(Debug, Clone, Copy, PartialEq, Eq, Structural)]
pub enum ParseError {
    /// The token the rule needs is not at the cursor.
    NoMatch,
    /// A run of digits was found, but its value does not fit in a `u8`.
    OutOfRange,
}

impl View for Expr {
    type V = Term;

    open spec fn view(&self) -> Term
        decreases self,
    {
        match self {
            Expr::MyInt(v) => Term::Int(*v),
            Expr::MyVar(name) => Term::Var(name@),
            Expr::MyFunction(param, body) => Term::Fun(param@, Box::new((**body).view())),
        }
    }
}

} // verus!
