use vstd::prelude::*;
use crate::ast::{Exp, ExpModel, Operand, Value};

verus! {

/// What can go wrong while evaluating a well-formed tree.
#[derive(Debug, Clone, Copy, PartialEq, Eq, Structural)]
pub enum EvalError {
    /// An arithmetic operator met an operand that is not a number.
    InvalidOperandTypes(Operand, Value, Value),
    /// The test of a conditional is not a boolean.
    InvalidIfCondType(Value),
}

/// Applies an operator to two evaluated operands; numbers wrap around at
/// the bounds of `i32`.
pub open spec fn apply_spec(op: Operand, v1: Value, v2: Value) -> Result<Value, EvalError> {
    match (v1, v2) {
        (Value::Number(a), Value::Number(b)) => Ok(Value::Number(
            match op {
                Operand::Plus => vstd::wrapping::i32_specs::wrapping_add(a, b),
                Operand::Minus => vstd::wrapping::i32_specs::wrapping_sub(a, b),
            },
        )),
        _ => Err(EvalError::InvalidOperandTypes(op, v1, v2)),
    }
}

/// The value of an expression: both operands of an operator are evaluated,
/// left first, before their types are checked; a conditional evaluates only
/// the branch its test selects; a list is the inert value `true`.
pub open spec fn eval_spec(e: ExpModel) -> Result<Value, EvalError>
    decreases e,
{
    match e {
        ExpModel::Number(n) => Ok(Value::Number(n)),
        ExpModel::Bool(b) => Ok(Value::Bool(b)),
        ExpModel::Calc { op, t1, t2 } => match eval_spec(*t1) {
            Err(x) => Err(x),
            Ok(v1) => match eval_spec(*t2) {
                Err(x) => Err(x),
                Ok(v2) => apply_spec(op, v1, v2),
            },
        },
        ExpModel::If { cond, if_value, else_value } => match eval_spec(*cond) {
            Err(x) => Err(x),
            Ok(Value::Bool(true)) => eval_spec(*if_value),
            Ok(Value::Bool(false)) => eval_spec(*else_value),
            Ok(v) => Err(EvalError::InvalidIfCondType(v)),
        },
        ExpModel::List(_) => Ok(Value::Bool(true)),
    }
}

fn apply(op: Operand, v1: Value, v2: Value) -> (r: Result<Value, EvalError>)
    ensures
        r == apply_spec(op, v1, v2),
{
    match (v1, v2) {
        (Value::Number(a), Value::Number(b)) => match op {
            Operand::Plus => Ok(Value::Number(a.wrapping_add(b))),
            Operand::Minus => Ok(Value::Number(a.wrapping_sub(b))),
        },
        _ => Err(EvalError::InvalidOperandTypes(op, v1, v2)),
    }
}

impl Exp {
    /// Evaluates the tree to a value.
    pub fn eval(&self) -> (r: Result<Value, EvalError>)
        ensures
            r == eval_spec(self.model()),
        decreases self,
    {
        match self {
            Exp::Number(v) => Ok(Value::Number(*v)),
            Exp::Bool(v) => Ok(Value::Bool(*v)),
            Exp::Calc { op, t1, t2 } => {
                let v1 = t1.eval()?;
                let v2 = t2.eval()?;
                apply(*op, v1, v2)
            },
            Exp::If { cond, if_value, else_value } => {
                let cond_v = cond.eval()?;
                match cond_v {
                    Value::Bool(true) => if_value.eval(),
                    Value::Bool(false) => else_value.eval(),
                    _ => Err(EvalError::InvalidIfCondType(cond_v)),
                }
            },
            Exp::List(_) => Ok(Value::Bool(true)),
        }
    }
}

} // verus!
