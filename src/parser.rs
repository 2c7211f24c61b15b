use vstd::prelude::*;
use crate::ast::{models, lemma_models_push, Exp, ExpModel, Operand};
use crate::lexer::{tokenize, token_models, tokens_of, Token, TokenModel};
use crate::number::{parse_i32, parse_i32_spec};

verus! {

/// Why a token sequence is not an expression.
#[derive(Debug)]
pub enum ParserError {
    /// A `)` stands where a form should begin.
    TooManyClose,
    /// The tokens end where a form should begin.
    NoFormInTokens,
    /// The tokens end before the `)` that closes a form.
    NoCloseInExp,
    /// A word is neither `true`, `false` nor a 32-bit integer.
    NotNumber(String),
    /// An operator or conditional form holds more operands than it takes.
    TooManyOperands,
    /// The text does not begin with `(`.
    NoOpenAtStart,
    /// Tokens follow the closing `)` of the outer form.
    TrailingTokens,
}

/// The model of a parse error, with the offending word as its characters.
pub enum ParseFault {
    TooManyClose,
    NoFormInTokens,
    NoCloseInExp,
    NotNumber(Seq<char>),
    TooManyOperands,
    NoOpenAtStart,
    TrailingTokens,
}

impl View for ParserError {
    type V = ParseFault;

    open spec fn view(&self) -> ParseFault {
        match self {
            ParserError::TooManyClose => ParseFault::TooManyClose,
            ParserError::NoFormInTokens => ParseFault::NoFormInTokens,
            ParserError::NoCloseInExp => ParseFault::NoCloseInExp,
            ParserError::NotNumber(w) => ParseFault::NotNumber(w@),
            ParserError::TooManyOperands => ParseFault::TooManyOperands,
            ParserError::NoOpenAtStart => ParseFault::NoOpenAtStart,
            ParserError::TrailingTokens => ParseFault::TrailingTokens,
        }
    }
}

/// The model of a parser result: the tree and the position after it, or
/// the error.
pub open spec fn result_model(r: Result<(Exp, usize), ParserError>) -> Result<(ExpModel, int), ParseFault> {
    match r {
        Ok((e, p)) => Ok((e.model(), p as int)),
        Err(x) => Err(x@),
    }
}

/// An atom: `true`, `false`, or a base-10 signed 32-bit integer.
pub open spec fn parse_word_spec(w: Seq<char>) -> Result<ExpModel, ParseFault> {
    if w == seq!['t', 'r', 'u', 'e'] {
        Ok(ExpModel::Bool(true))
    } else if w == seq!['f', 'a', 'l', 's', 'e'] {
        Ok(ExpModel::Bool(false))
    } else {
        match parse_i32_spec(w) {
            Some(n) => Ok(ExpModel::Number(n)),
            None => Err(ParseFault::NotNumber(w)),
        }
    }
}

/// Whether a position returned by a step of the parser lies after `pos`
/// and within the tokens.
pub open spec fn advanced(t: Seq<TokenModel>, pos: int, p: int) -> bool {
    pos < p <= t.len()
}

/// Whether a parser result, if it is a success, lies after `pos`.
pub open spec fn ok_advanced(t: Seq<TokenModel>, pos: int, r: Result<(ExpModel, int), ParseFault>) -> bool {
    match r {
        Ok((_, p)) => advanced(t, pos, p),
        Err(_) => true,
    }
}

/// Whether the token at `p` is `)`.
pub open spec fn closes_at(t: Seq<TokenModel>, p: int) -> bool {
    0 <= p < t.len() && t[p] is Close
}

/// One complete form starting at `pos`: a parenthesized form or an atom.
/// Gives the form and the position after it.
pub open spec fn parse_form_spec(t: Seq<TokenModel>, pos: int) -> Result<(ExpModel, int), ParseFault>
    decreases t.len() - pos, 0int,
{
    if pos < 0 || pos >= t.len() {
        Err(ParseFault::NoFormInTokens)
    } else {
        match t[pos] {
            TokenModel::Open => parse_body_spec(t, pos + 1),
            TokenModel::Close => Err(ParseFault::TooManyClose),
            TokenModel::Word(w) => match parse_word_spec(w) {
                Ok(e) => Ok((e, pos + 1)),
                Err(x) => Err(x),
            },
        }
    }
}

/// The `)` that must follow the operands of a form at `p`.
pub open spec fn close_spec(t: Seq<TokenModel>, p: int, e: ExpModel) -> Result<(ExpModel, int), ParseFault> {
    if p >= t.len() {
        Err(ParseFault::NoCloseInExp)
    } else if closes_at(t, p) {
        Ok((e, p + 1))
    } else {
        Err(ParseFault::TooManyOperands)
    }
}

/// The body of a parenthesized form, from the token after its `(` up to and
/// including its `)`. `+` and `-` take two forms, `if` three; an empty body
/// is an empty list; any other body is a list of forms.
pub open spec fn parse_body_spec(t: Seq<TokenModel>, pos: int) -> Result<(ExpModel, int), ParseFault>
    decreases t.len() - pos, 2int,
{
    if pos < 0 || pos >= t.len() {
        Err(ParseFault::NoCloseInExp)
    } else if closes_at(t, pos) {
        Ok((ExpModel::List(seq![]), pos + 1))
    } else if t[pos] == TokenModel::Word(seq!['+']) || t[pos] == TokenModel::Word(seq!['-']) {
        let op = if t[pos] == TokenModel::Word(seq!['+']) {
            Operand::Plus
        } else {
            Operand::Minus
        };
        match parse_form_spec(t, pos + 1) {
            Err(x) => Err(x),
            Ok((a, i1)) => if !advanced(t, pos + 1, i1) {
                Err(ParseFault::NoFormInTokens)
            } else {
                match parse_form_spec(t, i1) {
                    Err(x) => Err(x),
                    Ok((b, i2)) => close_spec(
                        t,
                        i2,
                        ExpModel::Calc { op, t1: Box::new(a), t2: Box::new(b) },
                    ),
                }
            },
        }
    } else if t[pos] == TokenModel::Word(seq!['i', 'f']) {
        match parse_form_spec(t, pos + 1) {
            Err(x) => Err(x),
            Ok((c, i1)) => if !advanced(t, pos + 1, i1) {
                Err(ParseFault::NoFormInTokens)
            } else {
                match parse_form_spec(t, i1) {
                    Err(x) => Err(x),
                    Ok((a, i2)) => if !advanced(t, i1, i2) {
                        Err(ParseFault::NoFormInTokens)
                    } else {
                        match parse_form_spec(t, i2) {
                            Err(x) => Err(x),
                            Ok((b, i3)) => close_spec(
                                t,
                                i3,
                                ExpModel::If {
                                    cond: Box::new(c),
                                    if_value: Box::new(a),
                                    else_value: Box::new(b),
                                },
                            ),
                        }
                    },
                }
            },
        }
    } else {
        parse_list_spec(t, pos, seq![])
    }
}

/// The rest of a list whose elements so far are `acc`: forms up to the
/// closing `)`.
pub open spec fn parse_list_spec(t: Seq<TokenModel>, pos: int, acc: Seq<ExpModel>) -> Result<(ExpModel, int), ParseFault>
    decreases t.len() - pos, 1int,
{
    if pos < 0 || pos >= t.len() {
        Err(ParseFault::NoCloseInExp)
    } else if closes_at(t, pos) {
        Ok((ExpModel::List(acc), pos + 1))
    } else {
        match parse_form_spec(t, pos) {
            Err(x) => Err(x),
            Ok((e, p)) => if !advanced(t, pos, p) {
                Err(ParseFault::NoFormInTokens)
            } else {
                parse_list_spec(t, p, acc.push(e))
            },
        }
    }
}

/// A whole token sequence: one parenthesized form that uses every token.
pub open spec fn parse_tokens_spec(t: Seq<TokenModel>) -> Result<ExpModel, ParseFault> {
    if t.len() > 0 && t[0] is Word {
        Err(ParseFault::NoOpenAtStart)
    } else {
        match parse_form_spec(t, 0) {
            Err(x) => Err(x),
            Ok((e, p)) => if p < t.len() {
                Err(ParseFault::TrailingTokens)
            } else {
                Ok(e)
            },
        }
    }
}

/// A whole text, split into tokens and parsed.
pub open spec fn parse_spec(s: Seq<char>) -> Result<ExpModel, ParseFault> {
    parse_tokens_spec(tokens_of(s))
}

/// Every successful step of the parser moves forward and stays within the
/// tokens.
pub proof fn lemma_parse_advances(t: Seq<TokenModel>, pos: int)
    ensures
        ok_advanced(t, pos, parse_form_spec(t, pos)),
        ok_advanced(t, pos, parse_body_spec(t, pos)),
        forall|acc: Seq<ExpModel>| ok_advanced(t, pos, #[trigger] parse_list_spec(t, pos, acc)),
    decreases t.len() - pos,
{
    if 0 <= pos < t.len() {
        lemma_parse_advances(t, pos + 1);
        assert(ok_advanced(t, pos, parse_form_spec(t, pos)));
        assert forall|acc: Seq<ExpModel>| ok_advanced(t, pos, #[trigger] parse_list_spec(t, pos, acc)) by {
            if !closes_at(t, pos) {
                let f = parse_form_spec(t, pos);
                if let Ok((e, q)) = f {
                    if advanced(t, pos, q) {
                        lemma_parse_advances(t, q);
                        assert(ok_advanced(t, q, parse_list_spec(t, q, acc.push(e))));
                    }
                }
            }
        }
        if let Ok((_, i1)) = parse_form_spec(t, pos + 1) {
            if advanced(t, pos + 1, i1) {
                lemma_parse_advances(t, i1);
                if let Ok((_, i2)) = parse_form_spec(t, i1) {
                    if advanced(t, i1, i2) {
                        lemma_parse_advances(t, i2);
                    }
                }
            }
        }
        assert(ok_advanced(t, pos, parse_list_spec(t, pos, seq![])));
    }
}

/// Whether `w` is the text `lit`.
fn word_is(w: &String, lit: &str) -> (r: bool)
    ensures
        r == (w@ == lit@),
{
    *w == lit.to_owned()
}

/// What the first token of a form's body makes of it.
enum FormHead {
    Calc(Operand),
    If,
    List,
}

/// The parser of the language's text.
pub struct StringParser {}

impl StringParser {
    /// Parses one complete form starting at `pos`.
    pub fn parse_tokens(&self, tokens: &[Token], pos: usize) -> (r: Result<(Exp, usize), ParserError>)
        ensures
            result_model(r) == parse_form_spec(token_models(tokens@), pos as int),
            r matches Ok((_, p)) ==> pos < p <= tokens@.len(),
        decreases tokens@.len() - pos, 0int,
    {
        proof {
            lemma_parse_advances(token_models(tokens@), pos as int);
        }
        if pos >= tokens.len() {
            return Err(ParserError::NoFormInTokens);
        }
        assert(token_models(tokens@)[pos as int] == tokens@[pos as int]@);
        match &tokens[pos] {
            Token::Open => self.parse_exps(tokens, pos + 1),
            Token::Close => Err(ParserError::TooManyClose),
            Token::Word(w) => match self.parse_exp(w) {
                Ok(e) => Ok((e, pos + 1)),
                Err(x) => Err(x),
            },
        }
    }

    /// Parses the body of a parenthesized form starting at `pos`, the token
    /// after its `(`, through its `)`.
    pub fn parse_exps(&self, tokens: &[Token], pos: usize) -> (r: Result<(Exp, usize), ParserError>)
        ensures
            result_model(r) == parse_body_spec(token_models(tokens@), pos as int),
            r matches Ok((_, p)) ==> pos < p <= tokens@.len(),
        decreases tokens@.len() - pos, 2int,
    {
        let ghost t = token_models(tokens@);
        proof {
            lemma_parse_advances(t, pos as int);
            reveal_strlit("+");
            reveal_strlit("-");
            reveal_strlit("if");
        }
        if pos >= tokens.len() {
            return Err(ParserError::NoCloseInExp);
        }
        assert(t[pos as int] == tokens@[pos as int]@);
        assert("+"@ =~= seq!['+']);
        assert("-"@ =~= seq!['-']);
        assert("if"@ =~= seq!['i', 'f']);
        let head = match &tokens[pos] {
            Token::Close => {
                let v: Vec<Exp> = Vec::new();
                assert(models(v@) =~= seq![]);
                return Ok((Exp::List(v), pos + 1));
            },
            Token::Open => FormHead::List,
            Token::Word(w) => if word_is(w, "+") {
                FormHead::Calc(Operand::Plus)
            } else if word_is(w, "-") {
                FormHead::Calc(Operand::Minus)
            } else if word_is(w, "if") {
                FormHead::If
            } else {
                FormHead::List
            },
        };
        match head {
            FormHead::List => self.parse_list(tokens, pos),
            FormHead::Calc(op) => {
                let (t1, i1) = self.parse_tokens(tokens, pos + 1)?;
                let (t2, i2) = self.parse_tokens(tokens, i1)?;
                let e = Exp::Calc { op, t1: Box::new(t1), t2: Box::new(t2) };
                Self::close(tokens, i2, e)
            },
            FormHead::If => {
                let (cond, i1) = self.parse_tokens(tokens, pos + 1)?;
                let (if_value, i2) = self.parse_tokens(tokens, i1)?;
                let (else_value, i3) = self.parse_tokens(tokens, i2)?;
                let e = Exp::If {
                    cond: Box::new(cond),
                    if_value: Box::new(if_value),
                    else_value: Box::new(else_value),
                };
                Self::close(tokens, i3, e)
            },
        }
    }

    /// Expects the `)` of a form at `p`.
    fn close(tokens: &[Token], p: usize, e: Exp) -> (r: Result<(Exp, usize), ParserError>)
        requires
            p <= tokens@.len(),
        ensures
            result_model(r) == close_spec(token_models(tokens@), p as int, e.model()),
            r matches Ok((_, q)) ==> q == p + 1 && q <= tokens@.len(),
    {
        if p >= tokens.len() {
            Err(ParserError::NoCloseInExp)
        } else {
            assert(token_models(tokens@)[p as int] == tokens@[p as int]@);
            match &tokens[p] {
                Token::Close => Ok((e, p + 1)),
                _ => Err(ParserError::TooManyOperands),
            }
        }
    }

    /// Parses the forms of a list, starting at its first element, through
    /// its `)`.
    fn parse_list(&self, tokens: &[Token], pos: usize) -> (r: Result<(Exp, usize), ParserError>)
        requires
            pos < tokens@.len(),
        ensures
            result_model(r) == parse_list_spec(token_models(tokens@), pos as int, seq![]),
            r matches Ok((_, p)) ==> pos < p <= tokens@.len(),
        decreases tokens@.len() - pos, 1int,
    {
        let ghost t = token_models(tokens@);
        proof {
            lemma_parse_advances(t, pos as int);
        }
        let mut exps: Vec<Exp> = Vec::new();
        let mut cur: usize = pos;
        assert(models(exps@) =~= seq![]);
        loop
            invariant
                t == token_models(tokens@),
                pos <= cur <= tokens@.len(),
                parse_list_spec(t, pos as int, seq![]) == parse_list_spec(t, cur as int, models(exps@)),
            decreases tokens@.len() - cur,
        {
            if cur >= tokens.len() {
                return Err(ParserError::NoCloseInExp);
            }
            assert(t[cur as int] == tokens@[cur as int]@);
            if let Token::Close = &tokens[cur] {
                proof {
                    lemma_parse_advances(t, cur as int);
                }
                return Ok((Exp::List(exps), cur + 1));
            }
            let (e, p) = self.parse_tokens(tokens, cur)?;
            proof {
                lemma_models_push(exps@, e);
            }
            exps.push(e);
            cur = p;
        }
    }

    /// Parses a whole text: it must be one parenthesized form, with no
    /// tokens after its closing `)`.
    pub fn parse(&self, input: &str) -> (r: Result<Exp, ParserError>)
        ensures
            match r {
                Ok(e) => parse_spec(input@) == Ok::<ExpModel, ParseFault>(e.model()),
                Err(x) => parse_spec(input@) == Err::<ExpModel, ParseFault>(x@),
            },
    {
        let tokens = tokenize(input);
        let ghost t = token_models(tokens@);
        if tokens.len() > 0 {
            assert(t[0] == tokens@[0]@);
            if let Token::Word(_) = &tokens[0] {
                return Err(ParserError::NoOpenAtStart);
            }
        }
        let (e, p) = self.parse_tokens(tokens.as_slice(), 0)?;
        if p < tokens.len() {
            return Err(ParserError::TrailingTokens);
        }
        Ok(e)
    }

    /// Parses an atom.
    pub fn parse_exp(&self, v: &String) -> (r: Result<Exp, ParserError>)
        ensures
            match r {
                Ok(e) => parse_word_spec(v@) == Ok::<ExpModel, ParseFault>(e.model()),
                Err(x) => parse_word_spec(v@) == Err::<ExpModel, ParseFault>(x@),
            },
    {
        proof {
            reveal_strlit("true");
            reveal_strlit("false");
        }
        assert("true"@ =~= seq!['t', 'r', 'u', 'e']);
        assert("false"@ =~= seq!['f', 'a', 'l', 's', 'e']);
        if word_is(v, "true") {
            Ok(Exp::Bool(true))
        } else if word_is(v, "false") {
            Ok(Exp::Bool(false))
        } else {
            match parse_i32(v.as_str()) {
                Some(n) => Ok(Exp::Number(n)),
                None => Err(ParserError::NotNumber(v.clone())),
            }
        }
    }
}

} // verus!
