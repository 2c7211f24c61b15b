use vstd::prelude::*;
use vstd::string::StrSliceExecFns;

verus! {

/// A lexical unit: a parenthesis or a whitespace-delimited word.
#[derive(Debug)]
pub enum Token {
    Open,
    Close,
    Word(String),
}

/// The model of a token, with a word as its characters.
pub enum TokenModel {
    Open,
    Close,
    Word(Seq<char>),
}

impl View for Token {
    type V = TokenModel;

    open spec fn view(&self) -> TokenModel {
        match self {
            Token::Open => TokenModel::Open,
            Token::Close => TokenModel::Close,
            Token::Word(w) => TokenModel::Word(w@),
        }
    }
}

/// The models of a sequence of tokens, in order.
pub open spec fn token_models(s: Seq<Token>) -> Seq<TokenModel> {
    s.map_values(|t: Token| t@)
}

/// The characters with the Unicode `White_Space` property.
pub open spec fn is_space_spec(c: char) -> bool {
    ('\u{9}' <= c && c <= '\u{d}') || c == ' ' || c == '\u{85}' || c == '\u{a0}'
        || c == '\u{1680}' || ('\u{2000}' <= c && c <= '\u{200a}') || c == '\u{2028}'
        || c == '\u{2029}' || c == '\u{202f}' || c == '\u{205f}' || c == '\u{3000}'
}

/// A character that ends a word: a parenthesis or whitespace.
pub open spec fn is_separator(c: char) -> bool {
    c == '(' || c == ')' || is_space_spec(c)
}

/// The word being read, as a token if it is not empty.
pub open spec fn flush(cur: Seq<char>) -> Seq<TokenModel> {
    if cur.len() == 0 {
        seq![]
    } else {
        seq![TokenModel::Word(cur)]
    }
}

/// The state of a left-to-right scan of `s`: the tokens completed so far and
/// the characters of the word that is still open.
pub open spec fn lex_state(s: Seq<char>) -> (Seq<TokenModel>, Seq<char>)
    decreases s.len(),
{
    if s.len() == 0 {
        (seq![], seq![])
    } else {
        let (done, cur) = lex_state(s.drop_last());
        let c = s.last();
        if c == '(' {
            (done + flush(cur) + seq![TokenModel::Open], seq![])
        } else if c == ')' {
            (done + flush(cur) + seq![TokenModel::Close], seq![])
        } else if is_space_spec(c) {
            (done + flush(cur), seq![])
        } else {
            (done, cur.push(c))
        }
    }
}

/// The tokens of a text: every parenthesis on its own, and the maximal runs
/// of other non-whitespace characters as words.
pub open spec fn tokens_of(s: Seq<char>) -> Seq<TokenModel> {
    lex_state(s).0 + flush(lex_state(s).1)
}

/// Whether `c` is whitespace.
pub fn is_space(c: char) -> (r: bool)
    ensures
        r == is_space_spec(c),
{
    ('\u{9}' <= c && c <= '\u{d}') || c == ' ' || c == '\u{85}' || c == '\u{a0}'
        || c == '\u{1680}' || ('\u{2000}' <= c && c <= '\u{200a}') || c == '\u{2028}'
        || c == '\u{2029}' || c == '\u{202f}' || c == '\u{205f}' || c == '\u{3000}'
}

/// Splits a text into tokens. Never fails; the empty text has no tokens.
pub fn tokenize(input: &str) -> (r: Vec<Token>)
    ensures
        token_models(r@) == tokens_of(input@),
{
    let n = input.unicode_len();
    let mut toks: Vec<Token> = Vec::new();
    let mut start: usize = 0;
    let mut i: usize = 0;
    while i < n
        invariant
            n == input@.len(),
            start <= i <= n,
            lex_state(input@.subrange(0, i as int)) == (
                token_models(toks@),
                input@.subrange(start as int, i as int),
            ),
        decreases n - i,
    {
        let c = input.get_char(i);
        proof {
            assert(input@.subrange(0, i + 1).drop_last() =~= input@.subrange(0, i as int));
        }
        if c == '(' || c == ')' || is_space(c) {
            if start < i {
                let w = input.substring_char(start, i).to_owned();
                proof {
                    assert(token_models(toks@.push(Token::Word(w))) =~= token_models(toks@)
                        + flush(input@.subrange(start as int, i as int)));
                }
                toks.push(Token::Word(w));
            } else {
                assert(flush(input@.subrange(start as int, i as int)) =~= seq![]);
                assert(token_models(toks@) + seq![] =~= token_models(toks@));
            }
            if c == '(' {
                proof {
                    assert(token_models(toks@.push(Token::Open)) =~= token_models(toks@) + seq![
                        TokenModel::Open,
                    ]);
                }
                toks.push(Token::Open);
            } else if c == ')' {
                proof {
                    assert(token_models(toks@.push(Token::Close)) =~= token_models(toks@) + seq![
                        TokenModel::Close,
                    ]);
                }
                toks.push(Token::Close);
            }
            start = i + 1;
        } else {
            assert(input@.subrange(start as int, i + 1) =~= input@.subrange(
                start as int,
                i as int,
            ).push(c));
        }
        i = i + 1;
        assert(input@.subrange(start as int, i as int).len() == 0 ==> input@.subrange(
            start as int,
            i as int,
        ) =~= seq![]);
    }
    assert(input@.subrange(0, n as int) =~= input@);
    if start < n {
        let w = input.substring_char(start, n).to_owned();
        proof {
            assert(token_models(toks@.push(Token::Word(w))) =~= token_models(toks@) + flush(
                input@.subrange(start as int, n as int),
            ));
        }
        toks.push(Token::Word(w));
    } else {
        assert(input@.subrange(start as int, n as int) =~= seq![]);
        assert(token_models(toks@) + flush(seq![]) =~= token_models(toks@));
    }
    toks
}

} // verus!
