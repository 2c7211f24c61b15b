use vstd::prelude::*;
use vstd::string::StringExecFns;
use crate::ast::Value;
use crate::eval::{eval_spec, EvalError};
use crate::number::{decimal, decimal_text};
use crate::parser::{parse_spec, ParseFault, ParserError, StringParser};

verus! {

/// Why a text could not be run: it does not parse, or it does not evaluate.
#[derive(Debug)]
pub enum RunError {
    Parse(ParserError),
    Eval(EvalError),
}

/// The model of a run error.
pub enum RunFault {
    Parse(ParseFault),
    Eval(EvalError),
}

impl View for RunError {
    type V = RunFault;

    open spec fn view(&self) -> RunFault {
        match self {
            RunError::Parse(x) => RunFault::Parse(x@),
            RunError::Eval(x) => RunFault::Eval(*x),
        }
    }
}

/// What running a text gives: the value of the expression it holds, or the
/// first error met on the way.
pub open spec fn run_spec(s: Seq<char>) -> Result<Value, RunFault> {
    match parse_spec(s) {
        Err(x) => Err(RunFault::Parse(x)),
        Ok(e) => match eval_spec(e) {
            Ok(v) => Ok(v),
            Err(x) => Err(RunFault::Eval(x)),
        },
    }
}

/// Whether `r` is what running `s` gives: the value's text when the run
/// succeeds, the error otherwise.
pub open spec fn run_meets(s: Seq<char>, r: Result<String, RunError>) -> bool {
    match (r, run_spec(s)) {
        (Ok(t), Ok(v)) => t@ == value_text_spec(v),
        (Err(e), Err(f)) => e@ == f,
        _ => false,
    }
}

/// The model of the result of a run.
pub open spec fn outcome_model(r: Result<String, RunError>) -> Result<Seq<char>, RunFault> {
    match r {
        Ok(t) => Ok(t@),
        Err(e) => Err(e@),
    }
}

/// Running the same text twice gives the same text or the same error: a run
/// depends on its input alone.
pub proof fn law_run_is_repeatable(s: Seq<char>, r1: Result<String, RunError>, r2: Result<String, RunError>)
    requires
        run_meets(s, r1),
        run_meets(s, r2),
    ensures
        outcome_model(r1) == outcome_model(r2),
{
}

/// The text of a value: a number in decimal, a boolean as `true` or `false`.
pub open spec fn value_text_spec(v: Value) -> Seq<char> {
    match v {
        Value::Number(n) => decimal(n as int),
        Value::Bool(true) => "true"@,
        Value::Bool(false) => "false"@,
    }
}

/// The text of an error.
pub open spec fn fault_text(f: RunFault) -> Seq<char> {
    match f {
        RunFault::Parse(ParseFault::TooManyClose) => "too many close parentheses"@,
        RunFault::Parse(ParseFault::NoFormInTokens) => "no parenthesis in tokens"@,
        RunFault::Parse(ParseFault::NoCloseInExp) => "no parenthesis in exp"@,
        RunFault::Parse(ParseFault::NotNumber(w)) => w + " is not number"@,
        RunFault::Parse(ParseFault::TooManyOperands) => "too many operands in exp"@,
        RunFault::Parse(ParseFault::NoOpenAtStart) => "exp must start with open parenthesis"@,
        RunFault::Parse(ParseFault::TrailingTokens) => "tokens after the end of exp"@,
        RunFault::Eval(EvalError::InvalidOperandTypes(op, v1, v2)) => "operand "@ + op.name_spec()
            + " requires number values: "@ + value_text_spec(v1) + " "@ + value_text_spec(v2),
        RunFault::Eval(EvalError::InvalidIfCondType(v)) => "if cond requires boolean: "@
            + value_text_spec(v),
    }
}

/// The text of the outcome of a run: the value's text, or the error's.
pub open spec fn reply_text(s: Seq<char>) -> Seq<char> {
    match run_spec(s) {
        Ok(v) => value_text_spec(v),
        Err(f) => fault_text(f),
    }
}

impl Value {
    /// Writes the value: a number in decimal, a boolean as `true` or `false`.
    pub fn to_text(&self) -> (r: String)
        ensures
            r@ == value_text_spec(*self),
    {
        match self {
            Value::Number(n) => decimal_text(*n),
            Value::Bool(true) => String::from_str("true"),
            Value::Bool(false) => String::from_str("false"),
        }
    }
}

impl RunError {
    /// Writes a message that describes the error.
    pub fn message(&self) -> (r: String)
        ensures
            r@ == fault_text(self@),
    {
        match self {
            RunError::Parse(ParserError::TooManyClose) => String::from_str("too many close parentheses"),
            RunError::Parse(ParserError::NoFormInTokens) => String::from_str("no parenthesis in tokens"),
            RunError::Parse(ParserError::NoCloseInExp) => String::from_str("no parenthesis in exp"),
            RunError::Parse(ParserError::NotNumber(w)) => w.clone().concat(" is not number"),
            RunError::Parse(ParserError::TooManyOperands) => String::from_str("too many operands in exp"),
            RunError::Parse(ParserError::NoOpenAtStart) => String::from_str(
                "exp must start with open parenthesis",
            ),
            RunError::Parse(ParserError::TrailingTokens) => String::from_str(
                "tokens after the end of exp",
            ),
            RunError::Eval(EvalError::InvalidOperandTypes(op, v1, v2)) => {
                let s = String::from_str("operand ").concat(op.name().as_str());
                let s = s.concat(" requires number values: ").concat(v1.to_text().as_str());
                s.concat(" ").concat(v2.to_text().as_str())
            },
            RunError::Eval(EvalError::InvalidIfCondType(v)) => String::from_str(
                "if cond requires boolean: ",
            ).concat(v.to_text().as_str()),
        }
    }
}

/// Tokenizes, parses and evaluates a text, and writes the value.
pub fn run(input: &str) -> (r: Result<String, RunError>)
    ensures
        run_meets(input@, r),
{
    let parser = StringParser {};
    let exp = match parser.parse(input) {
        Ok(e) => e,
        Err(x) => return Err(RunError::Parse(x)),
    };
    match exp.eval() {
        Ok(v) => Ok(v.to_text()),
        Err(x) => Err(RunError::Eval(x)),
    }
}

/// The handler behind the remote `run` call: it runs the request's text and
/// replies with the value's text, or with the error's message.
#[derive(Default)]
pub struct LispustService {}

impl LispustService {
    /// The reply to a request that carries `message`.
    pub fn run(&self, message: &str) -> (r: String)
        ensures
            r@ == reply_text(message@),
    {
        match run(message) {
            Ok(ret) => ret,
            Err(e) => e.message(),
        }
    }
}

} // verus!
