use vstd::prelude::*;
use vstd::string::StringExecFns;

verus! {

/// The two arithmetic operators of the language.
#[derive(Debug, Clone, Copy, PartialEq, Eq, Structural)]
pub enum Operand {
    Plus,
    Minus,
}

impl Operand {
    /// The operator's name in messages.
    pub open spec fn name_spec(&self) -> Seq<char> {
        match self {
            Operand::Plus => "plus"@,
            Operand::Minus => "minus"@,
        }
    }

    /// The operator's name in messages: `plus` or `minus`.
    pub fn name(&self) -> (r: String)
        ensures
            r@ == self.name_spec(),
    {
        match self {
            Operand::Plus => String::from_str("plus"),
            Operand::Minus => String::from_str("minus"),
        }
    }
}

/// A runtime value: the result of evaluating an expression.
#[derive(Debug, Clone, Copy, PartialEq, Eq, Structural)]
pub enum Value {
    Number(i32),
    Bool(bool),
}

/// An expression tree; each node owns its children.
#[derive(Debug)]
pub enum Exp {
    Number(i32),
    Bool(bool),
    Calc { op: Operand, t1: Box<Exp>, t2: Box<Exp> },
    If { cond: Box<Exp>, if_value: Box<Exp>, else_value: Box<Exp> },
    List(Vec<Exp>),
}

/// The mathematical model of an expression tree: the same shape, with the
/// elements of a list as a sequence.
pub enum ExpModel {
    Number(i32),
    Bool(bool),
    Calc { op: Operand, t1: Box<ExpModel>, t2: Box<ExpModel> },
    If { cond: Box<ExpModel>, if_value: Box<ExpModel>, else_value: Box<ExpModel> },
    List(Seq<ExpModel>),
}

impl Exp {
    pub open spec fn model(&self) -> ExpModel
        decreases self,
    {
        match self {
            Exp::Number(n) => ExpModel::Number(*n),
            Exp::Bool(b) => ExpModel::Bool(*b),
            Exp::Calc { op, t1, t2 } => ExpModel::Calc {
                op: *op,
                t1: Box::new(t1.model()),
                t2: Box::new(t2.model()),
            },
            Exp::If { cond, if_value, else_value } => ExpModel::If {
                cond: Box::new(cond.model()),
                if_value: Box::new(if_value.model()),
                else_value: Box::new(else_value.model()),
            },
            Exp::List(v) => ExpModel::List(models(v@)),
        }
    }
}

/// The models of a sequence of expressions, in order.
pub open spec fn models(s: Seq<Exp>) -> Seq<ExpModel>
    decreases s,
{
    if s.len() == 0 {
        seq![]
    } else {
        models(s.drop_last()).push(s.last().model())
    }
}

pub proof fn lemma_models_push(s: Seq<Exp>, e: Exp)
    ensures
        models(s.push(e)) == models(s).push(e.model()),
{
    assert(s.push(e).drop_last() =~= s);
}

} // verus!
