//! The syntax tree of the language, and its mathematical value.

use vstd::prelude::*;

verus! {

/// An expression. A number keeps the text of its literal.
#[derive(Debug, PartialEq)]
pub enum ExprAST {
    /// Numeric literal like "1.0".
    Number(String),
    /// Reference to a variable, like "a".
    Variable(String),
    /// Binary operator.
    Binary(char, Box<ExprAST>, Box<ExprAST>),
    /// Function call.
    Call(String, Vec<ExprAST>),
    /// if/then/else.
    If { cond: Box<ExprAST>, then_: Box<ExprAST>, else_: Box<ExprAST> },
    /// for/in.
    For {
        var: String,
        start: Box<ExprAST>,
        end: Box<ExprAST>,
        step: Option<Box<ExprAST>>,
        body: Box<ExprAST>,
    },
}

/// The "prototype" of a function: its name and the names of its parameters.
#[derive(Debug, PartialEq, Clone)]
pub struct PrototypeAST(pub String, pub Vec<String>);

/// A function definition.
#[derive(Debug, PartialEq)]
pub struct FunctionAST(pub PrototypeAST, pub ExprAST);

/// The mathematical value of an [`ExprAST`].
pub enum ExprV {
    Number(Seq<char>),
    Variable(Seq<char>),
    Binary(char, Box<ExprV>, Box<ExprV>),
    Call(Seq<char>, Seq<ExprV>),
    If(Box<ExprV>, Box<ExprV>, Box<ExprV>),
    For(Seq<char>, Box<ExprV>, Box<ExprV>, Option<Box<ExprV>>, Box<ExprV>),
}

/// The mathematical value of a [`PrototypeAST`].
pub struct PrototypeV {
    pub name: Seq<char>,
    pub params: Seq<Seq<char>>,
}

/// The mathematical value of a [`FunctionAST`].
pub struct FunctionV {
    pub proto: PrototypeV,
    pub body: ExprV,
}

pub open spec fn expr_view(e: ExprAST) -> ExprV
    decreases e,
{
    match e {
        ExprAST::Number(n) => ExprV::Number(n@),
        ExprAST::Variable(n) => ExprV::Variable(n@),
        ExprAST::Binary(op, l, r) => ExprV::Binary(op, Box::new(expr_view(*l)), Box::new(expr_view(*r))),
        ExprAST::Call(n, args) => ExprV::Call(n@, exprs_view(args@)),
        ExprAST::If { cond, then_, else_ } => ExprV::If(
            Box::new(expr_view(*cond)),
            Box::new(expr_view(*then_)),
            Box::new(expr_view(*else_)),
        ),
        ExprAST::For { var, start, end, step, body } => ExprV::For(
            var@,
            Box::new(expr_view(*start)),
            Box::new(expr_view(*end)),
            match step {
                Some(s) => Some(Box::new(expr_view(*s))),
                None => None,
            },
            Box::new(expr_view(*body)),
        ),
    }
}

pub open spec fn exprs_view(s: Seq<ExprAST>) -> Seq<ExprV>
    decreases s,
{
    if s.len() == 0 {
        Seq::empty()
    } else {
        exprs_view(s.drop_last()).push(expr_view(s.last()))
    }
}

/// Appending an expression appends its value.
pub proof fn lemma_exprs_view_push(s: Seq<ExprAST>, e: ExprAST)
    ensures
        exprs_view(s.push(e)) == exprs_view(s).push(expr_view(e)),
        exprs_view(s).len() == s.len(),
    decreases s.len(),
{
    assert(s.push(e).drop_last() =~= s);
    if s.len() > 0 {
        lemma_exprs_view_push(s.drop_last(), s.last());
        assert(s.drop_last().push(s.last()) =~= s);
    }
}

/// The value of each element is the element's value.
pub proof fn lemma_exprs_view_index(s: Seq<ExprAST>)
    ensures
        exprs_view(s).len() == s.len(),
        forall|i: int| 0 <= i < s.len() ==> #[trigger] exprs_view(s)[i] == expr_view(s[i]),
    decreases s.len(),
{
    if s.len() > 0 {
        lemma_exprs_view_index(s.drop_last());
    }
}

impl View for ExprAST {
    type V = ExprV;

    open spec fn view(&self) -> ExprV {
        expr_view(*self)
    }
}

pub open spec fn strings_view(s: Seq<String>) -> Seq<Seq<char>> {
    s.map_values(|x: String| x@)
}

impl View for PrototypeAST {
    type V = PrototypeV;

    open spec fn view(&self) -> PrototypeV {
        PrototypeV { name: self.0@, params: strings_view(self.1@) }
    }
}

impl View for FunctionAST {
    type V = FunctionV;

    open spec fn view(&self) -> FunctionV {
        FunctionV { proto: self.0@, body: self.1@ }
    }
}

} // verus!
