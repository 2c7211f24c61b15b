use vstd::prelude::*;
use crate::ast::{ExpModel, Operand, Value};
use crate::eval::eval_spec;
use crate::lexer::{flush, is_separator, is_space_spec, lex_state, tokens_of, TokenModel};
use crate::number::{decimal, is_digit, lemma_decimal_round_trip, parse_i32_spec};
use crate::run::{run_spec, RunFault};
use crate::parser::{
    advanced, lemma_parse_advances, parse_body_spec, parse_form_spec, parse_list_spec,
    parse_tokens_spec, parse_word_spec, ParseFault,
};

verus! {

/// One step of the scan, for a text that grows by one character.
proof fn lemma_lex_push(s: Seq<char>, c: char)
    ensures
        lex_state(s.push(c)) == ({
            let (done, cur) = lex_state(s);
            if c == '(' {
                (done + flush(cur) + seq![TokenModel::Open], seq![])
            } else if c == ')' {
                (done + flush(cur) + seq![TokenModel::Close], seq![])
            } else if is_space_spec(c) {
                (done + flush(cur), seq![])
            } else {
                (done, cur.push(c))
            }
        }),
{
    assert(s.push(c).drop_last() =~= s);
}

/// Scanning a text that ends between words, then more text, completes the
/// first text's tokens and then scans the second as if alone.
proof fn lemma_lex_append(s1: Seq<char>, s2: Seq<char>)
    requires
        lex_state(s1).1.len() == 0,
    ensures
        lex_state(s1 + s2) == (lex_state(s1).0 + lex_state(s2).0, lex_state(s2).1),
    decreases s2.len(),
{
    let d1 = lex_state(s1).0;
    if s2.len() == 0 {
        assert(s1 + s2 =~= s1);
        assert(d1 + seq![] =~= d1);
        assert(lex_state(s1).1 =~= seq![]);
    } else {
        let s3 = s2.drop_last();
        let c = s2.last();
        lemma_lex_append(s1, s3);
        assert((s1 + s2) =~= (s1 + s3).push(c));
        assert(s2 =~= s3.push(c));
        lemma_lex_push(s1 + s3, c);
        lemma_lex_push(s3, c);
        let (d3, c3) = lex_state(s3);
        assert(d1 + d3 + flush(c3) + seq![TokenModel::Open] =~= d1 + (d3 + flush(c3) + seq![
            TokenModel::Open,
        ]));
        assert(d1 + d3 + flush(c3) + seq![TokenModel::Close] =~= d1 + (d3 + flush(c3) + seq![
            TokenModel::Close,
        ]));
        assert(d1 + d3 + flush(c3) =~= d1 + (d3 + flush(c3)));
    }
}

/// What a successful parse of `x` from `i` gives, read at the same place in
/// a longer token sequence `a + x + b`.
pub open spec fn shifted(
    rx: Result<(ExpModel, int), ParseFault>,
    rt: Result<(ExpModel, int), ParseFault>,
    off: int,
) -> bool {
    match rx {
        Ok((e, p)) => rt == Ok::<(ExpModel, int), ParseFault>((e, p + off)),
        Err(_) => true,
    }
}

/// A successful parse reads only the tokens it consumes: tokens before or
/// after them do not change it.
#[verifier::spinoff_prover]
#[verifier::rlimit(60)]
proof fn lemma_parse_shift(a: Seq<TokenModel>, x: Seq<TokenModel>, b: Seq<TokenModel>, i: int)
    requires
        0 <= i,
    ensures
        shifted(parse_form_spec(x, i), parse_form_spec(a + x + b, a.len() + i), a.len() as int),
        shifted(parse_body_spec(x, i), parse_body_spec(a + x + b, a.len() + i), a.len() as int),
        forall|acc: Seq<ExpModel>|
            shifted(
                #[trigger] parse_list_spec(x, i, acc),
                parse_list_spec(a + x + b, a.len() + i, acc),
                a.len() as int,
            ),
    decreases x.len() - i,
{
    let t = a + x + b;
    let o = a.len() as int;
    if i < x.len() {
        assert(t[o + i] == x[i]);
        lemma_parse_advances(x, i);
        lemma_parse_advances(x, i + 1);
        lemma_parse_shift(a, x, b, i + 1);
        assert forall|acc: Seq<ExpModel>|
            shifted(
                #[trigger] parse_list_spec(x, i, acc),
                parse_list_spec(t, o + i, acc),
                o,
            ) by {
            if !(x[i] is Close) {
                if let Ok((e, q)) = parse_form_spec(x, i) {
                    if advanced(x, i, q) {
                        lemma_parse_shift(a, x, b, q);
                        assert(shifted(
                            parse_list_spec(x, q, acc.push(e)),
                            parse_list_spec(t, o + q, acc.push(e)),
                            o,
                        ));
                    }
                }
            }
        }
        if let Ok((_, i1)) = parse_form_spec(x, i + 1) {
            if advanced(x, i + 1, i1) {
                lemma_parse_advances(x, i1);
                lemma_parse_shift(a, x, b, i1);
                if i1 < x.len() {
                    assert(t[o + i1] == x[i1]);
                }
                if let Ok((_, i2)) = parse_form_spec(x, i1) {
                    if advanced(x, i1, i2) {
                        lemma_parse_advances(x, i2);
                        lemma_parse_shift(a, x, b, i2);
                        if i2 < x.len() {
                            assert(t[o + i2] == x[i2]);
                        }
                        if let Ok((_, i3)) = parse_form_spec(x, i2) {
                            if i3 < x.len() {
                                assert(t[o + i3] == x[i3]);
                            }
                        }
                    }
                }
            }
        }
        assert(shifted(parse_list_spec(x, i, seq![]), parse_list_spec(t, o + i, seq![]), o));
    }
}

/// A non-empty word with no parenthesis or whitespace in it.
pub open spec fn is_plain_word(w: Seq<char>) -> bool {
    w.len() > 0 && forall|i: int| 0 <= i < w.len() ==> !is_separator(#[trigger] w[i])
}

proof fn lemma_lex_plain(w: Seq<char>)
    requires
        forall|i: int| 0 <= i < w.len() ==> !is_separator(#[trigger] w[i]),
    ensures
        lex_state(w) == (Seq::<TokenModel>::empty(), w),
    decreases w.len(),
{
    if w.len() > 0 {
        lemma_lex_plain(w.drop_last());
        lemma_lex_push(w.drop_last(), w.last());
        assert(w.drop_last().push(w.last()) =~= w);
    } else {
        assert(w =~= seq![]);
    }
}

proof fn lemma_tokens_of_plain(w: Seq<char>)
    requires
        is_plain_word(w),
    ensures
        tokens_of(w) == seq![TokenModel::Word(w)],
{
    lemma_lex_plain(w);
    assert(Seq::<TokenModel>::empty() + flush(w) =~= seq![TokenModel::Word(w)]);
}

/// Scanning past a text and the whitespace after it.
proof fn lemma_lex_then_space(s: Seq<char>, x: Seq<char>)
    requires
        lex_state(s).1.len() == 0,
    ensures
        lex_state(s + x.push(' ')) == (lex_state(s).0 + tokens_of(x), Seq::<char>::empty()),
{
    lemma_lex_append(s, x.push(' '));
    lemma_lex_push(x, ' ');
    assert(lex_state(x.push(' ')).1 =~= Seq::<char>::empty());
}

/// Scanning past a text and the `)` after it.
proof fn lemma_lex_then_close(s: Seq<char>, x: Seq<char>)
    requires
        lex_state(s).1.len() == 0,
    ensures
        lex_state(s + x.push(')')) == (
            lex_state(s).0 + (tokens_of(x) + seq![TokenModel::Close]),
            Seq::<char>::empty(),
        ),
{
    lemma_lex_append(s, x.push(')'));
    lemma_lex_push(x, ')');
    assert(lex_state(x.push(')')).1 =~= Seq::<char>::empty());
}

proof fn lemma_lex_open()
    ensures
        lex_state(seq!['(']) == (seq![TokenModel::Open], Seq::<char>::empty()),
{
    lemma_lex_push(seq![], '(');
    assert(Seq::<char>::empty().push('(') =~= seq!['(']);
    assert(Seq::<TokenModel>::empty() + flush(seq![]) + seq![TokenModel::Open] =~= seq![
        TokenModel::Open,
    ]);
    assert(lex_state(Seq::<char>::empty()) == (Seq::<TokenModel>::empty(), Seq::<char>::empty()));
}

/// An integer literal is a plain word that denotes its number.
proof fn lemma_literal_word(w: Seq<char>, a: i32)
    requires
        parse_i32_spec(w) == Some(a),
    ensures
        is_plain_word(w),
        parse_word_spec(w) == Ok::<ExpModel, ParseFault>(ExpModel::Number(a)),
{
    assert(w.len() > 0);
    assert forall|i: int| 0 <= i < w.len() implies !is_separator(#[trigger] w[i]) by {
        if w[0] == '-' || w[0] == '+' {
            if i > 0 {
                assert(w[i] == w.drop_first()[i - 1]);
                assert(is_digit(w.drop_first()[i - 1]));
            }
        } else {
            assert(is_digit(w[i]));
        }
    }
    assert(w[0] == '-' || w[0] == '+' || is_digit(w[0]));
    assert(w != seq!['t', 'r', 'u', 'e']) by {
        if w == seq!['t', 'r', 'u', 'e'] {
            assert(w[0] == 't');
        }
    }
    assert(w != seq!['f', 'a', 'l', 's', 'e']) by {
        if w == seq!['f', 'a', 'l', 's', 'e'] {
            assert(w[0] == 'f');
        }
    }
}

/// The text `(op w1 w2)`.
pub open spec fn binary_text(op: char, w1: Seq<char>, w2: Seq<char>) -> Seq<char> {
    seq!['(', op, ' '] + w1 + seq![' '] + w2 + seq![')']
}

proof fn lemma_binary_text(op: char, w1: Seq<char>, w2: Seq<char>, a: i32, b: i32)
    requires
        op == '+' || op == '-',
        parse_i32_spec(w1) == Some(a),
        parse_i32_spec(w2) == Some(b),
    ensures
        run_spec(binary_text(op, w1, w2)) == match eval_spec(
            ExpModel::Calc {
                op: if op == '+' { Operand::Plus } else { Operand::Minus },
                t1: Box::new(ExpModel::Number(a)),
                t2: Box::new(ExpModel::Number(b)),
            },
        ) {
            Ok(v) => Ok::<Value, RunFault>(v),
            Err(f) => Err(RunFault::Eval(f)),
        },
{
    lemma_literal_word(w1, a);
    lemma_literal_word(w2, b);
    lemma_tokens_of_plain(w1);
    lemma_tokens_of_plain(w2);
    lemma_tokens_of_plain(seq![op]);
    let s0 = seq!['('];
    let s1 = s0 + seq![op].push(' ');
    let s2 = s1 + w1.push(' ');
    let s3 = s2 + w2.push(')');
    lemma_lex_open();
    lemma_lex_then_space(s0, seq![op]);
    lemma_lex_then_space(s1, w1);
    lemma_lex_then_close(s2, w2);
    assert(s3 =~= binary_text(op, w1, w2));
    let t = seq![
        TokenModel::Open,
        TokenModel::Word(seq![op]),
        TokenModel::Word(w1),
        TokenModel::Word(w2),
        TokenModel::Close,
    ];
    assert(tokens_of(s3) =~= t);
    assert(t[1] == TokenModel::Word(seq!['+']) <==> op == '+');
    assert(t[1] == TokenModel::Word(seq!['-']) <==> op == '-');
    assert(parse_form_spec(t, 2) == Ok::<(ExpModel, int), ParseFault>((ExpModel::Number(a), 3)));
    assert(parse_form_spec(t, 3) == Ok::<(ExpModel, int), ParseFault>((ExpModel::Number(b), 4)));
    assert(parse_body_spec(t, 1) is Ok);
    assert(parse_tokens_spec(t) is Ok);
}

/// Adding or subtracting two integer literals gives their sum or
/// difference, wrapped to 32 bits.
pub proof fn law_arithmetic_on_literals(w1: Seq<char>, w2: Seq<char>, a: i32, b: i32)
    requires
        parse_i32_spec(w1) == Some(a),
        parse_i32_spec(w2) == Some(b),
    ensures
        run_spec(binary_text('+', w1, w2)) == Ok::<Value, RunFault>(
            Value::Number(vstd::wrapping::i32_specs::wrapping_add(a, b)),
        ),
        run_spec(binary_text('-', w1, w2)) == Ok::<Value, RunFault>(
            Value::Number(vstd::wrapping::i32_specs::wrapping_sub(a, b)),
        ),
{
    lemma_binary_text('+', w1, w2, a, b);
    lemma_binary_text('-', w1, w2, a, b);
    reveal_with_fuel(eval_spec, 2);
}

/// Adding or subtracting two integers written in decimal gives their sum or
/// difference, wrapped to 32 bits.
pub proof fn law_arithmetic_on_integers(a: i32, b: i32)
    ensures
        run_spec(binary_text('+', decimal(a as int), decimal(b as int))) == Ok::<Value, RunFault>(
            Value::Number(vstd::wrapping::i32_specs::wrapping_add(a, b)),
        ),
        run_spec(binary_text('-', decimal(a as int), decimal(b as int))) == Ok::<Value, RunFault>(
            Value::Number(vstd::wrapping::i32_specs::wrapping_sub(a, b)),
        ),
{
    lemma_decimal_round_trip(a);
    lemma_decimal_round_trip(b);
    law_arithmetic_on_literals(decimal(a as int), decimal(b as int), a, b);
}

/// Whether the text `x` is exactly one complete form, whose tree is `e`.
pub open spec fn is_form_text(x: Seq<char>, e: ExpModel) -> bool {
    parse_form_spec(tokens_of(x), 0) == Ok::<(ExpModel, int), ParseFault>(
        (e, tokens_of(x).len() as int),
    )
}

/// The text `(if test x y)`.
pub open spec fn if_text(test: Seq<char>, x: Seq<char>, y: Seq<char>) -> Seq<char> {
    seq!['(', 'i', 'f', ' '] + test + seq![' '] + x + seq![' '] + y + seq![')']
}

/// The outcome of a run whose text holds `e`.
pub open spec fn eval_outcome(e: ExpModel) -> Result<Value, RunFault> {
    match eval_spec(e) {
        Ok(v) => Ok(v),
        Err(f) => Err(RunFault::Eval(f)),
    }
}

/// The tokens of the plain test word `test` at the head of a conditional,
/// after `(if`.
pub open spec fn if_head(test: Seq<char>) -> Seq<TokenModel> {
    seq![TokenModel::Open, TokenModel::Word(seq!['i', 'f']), TokenModel::Word(test)]
}

#[verifier::spinoff_prover]
proof fn lemma_if_tokens(test: Seq<char>, x: Seq<char>, y: Seq<char>)
    requires
        is_plain_word(test),
    ensures
        tokens_of(if_text(test, x, y)) == if_head(test) + tokens_of(x) + (tokens_of(y) + seq![
            TokenModel::Close,
        ]),
{
    let kw = seq!['i', 'f'];
    assert(is_plain_word(kw));
    lemma_tokens_of_plain(kw);
    lemma_tokens_of_plain(test);
    let s0 = seq!['('];
    let s1 = s0 + kw.push(' ');
    let s2 = s1 + test.push(' ');
    let s3 = s2 + x.push(' ');
    let s4 = s3 + y.push(')');
    lemma_lex_open();
    lemma_lex_then_space(s0, kw);
    lemma_lex_then_space(s1, test);
    lemma_lex_then_space(s2, x);
    lemma_lex_then_close(s3, y);
    assert(s4 =~= if_text(test, x, y));
    assert(tokens_of(s4) =~= if_head(test) + tokens_of(x) + (tokens_of(y) + seq![
        TokenModel::Close,
    ]));
}

#[verifier::spinoff_prover]
proof fn lemma_if_parse(test: Seq<char>, b: bool, tx: Seq<TokenModel>, ty: Seq<TokenModel>, ex: ExpModel, ey: ExpModel)
    requires
        (b && test == seq!['t', 'r', 'u', 'e']) || (!b && test == seq!['f', 'a', 'l', 's', 'e']),
        parse_form_spec(tx, 0) == Ok::<(ExpModel, int), ParseFault>((ex, tx.len() as int)),
        parse_form_spec(ty, 0) == Ok::<(ExpModel, int), ParseFault>((ey, ty.len() as int)),
    ensures
        parse_tokens_spec(if_head(test) + tx + (ty + seq![TokenModel::Close])) == Ok::<ExpModel, ParseFault>(
            ExpModel::If {
                cond: Box::new(ExpModel::Bool(b)),
                if_value: Box::new(ex),
                else_value: Box::new(ey),
            },
        ),
{
    let kw = seq!['i', 'f'];
    let nx = tx.len() as int;
    let ny = ty.len() as int;
    let a = if_head(test);
    let t = a + tx + (ty + seq![TokenModel::Close]);
    lemma_parse_advances(tx, 0);
    lemma_parse_advances(ty, 0);
    lemma_parse_shift(a, tx, ty + seq![TokenModel::Close], 0);
    lemma_parse_shift(a + tx, ty, seq![TokenModel::Close], 0);
    assert(t =~= (a + tx) + ty + seq![TokenModel::Close]);
    assert(t[0] == TokenModel::Open);
    assert(t[1] == TokenModel::Word(kw));
    assert(t[2] == TokenModel::Word(test));
    assert(kw != seq!['+']);
    assert(kw != seq!['-']);
    assert(parse_word_spec(test) == Ok::<ExpModel, ParseFault>(ExpModel::Bool(b)));
    assert(parse_form_spec(t, 2) == Ok::<(ExpModel, int), ParseFault>((ExpModel::Bool(b), 3)));
    assert(parse_form_spec(t, 3) == Ok::<(ExpModel, int), ParseFault>((ex, 3 + nx)));
    assert(parse_form_spec(t, 3 + nx) == Ok::<(ExpModel, int), ParseFault>((ey, 3 + nx + ny)));
    assert(t[3 + nx + ny] == TokenModel::Close);
    assert(t.len() == 4 + nx + ny);
}

/// A conditional whose test is the literal `true` has the value of its
/// first branch; one whose test is `false` has the value of its second.
pub proof fn law_conditional_selects_branch(x: Seq<char>, y: Seq<char>, ex: ExpModel, ey: ExpModel)
    requires
        is_form_text(x, ex),
        is_form_text(y, ey),
    ensures
        run_spec(if_text(seq!['t', 'r', 'u', 'e'], x, y)) == eval_outcome(ex),
        run_spec(if_text(seq!['f', 'a', 'l', 's', 'e'], x, y)) == eval_outcome(ey),
{
    let yes = seq!['t', 'r', 'u', 'e'];
    let no = seq!['f', 'a', 'l', 's', 'e'];
    assert(is_plain_word(yes));
    assert(is_plain_word(no));
    lemma_if_tokens(yes, x, y);
    lemma_if_tokens(no, x, y);
    lemma_if_parse(yes, true, tokens_of(x), tokens_of(y), ex, ey);
    lemma_if_parse(no, false, tokens_of(x), tokens_of(y), ex, ey);
    reveal_with_fuel(eval_spec, 2);
}

} // verus!
