use vstd::prelude::*;
use vstd::string::{StrSliceExecFns, StringExecFns};

verus! {

pub open spec fn is_digit(c: char) -> bool {
    '0' <= c && c <= '9'
}

pub open spec fn all_digits(d: Seq<char>) -> bool {
    forall|i: int| 0 <= i < d.len() ==> is_digit(#[trigger] d[i])
}

pub open spec fn digit_value(c: char) -> int {
    c as int - '0' as int
}

/// The number that a run of decimal digits denotes.
pub open spec fn digits_value(d: Seq<char>) -> int
    decreases d.len(),
{
    if d.len() == 0 {
        0
    } else {
        digits_value(d.drop_last()) * 10 + digit_value(d.last())
    }
}

/// The integer a word denotes: an optional `+` or `-`, then one or more
/// decimal digits.
pub open spec fn int_value_spec(w: Seq<char>) -> Option<int> {
    if w.len() > 0 && (w[0] == '-' || w[0] == '+') {
        let d = w.drop_first();
        if d.len() > 0 && all_digits(d) {
            Some(if w[0] == '-' { -digits_value(d) } else { digits_value(d) })
        } else {
            None
        }
    } else if w.len() > 0 && all_digits(w) {
        Some(digits_value(w))
    } else {
        None
    }
}

/// The `i32` a word denotes, if it denotes one in range.
pub open spec fn parse_i32_spec(w: Seq<char>) -> Option<i32> {
    match int_value_spec(w) {
        Some(v) => if i32::MIN <= v <= i32::MAX {
            Some(v as i32)
        } else {
            None
        },
        None => None,
    }
}

proof fn lemma_digits_value_step(d: Seq<char>, k: int)
    requires
        0 <= k < d.len(),
    ensures
        digits_value(d.subrange(0, k + 1)) == digits_value(d.subrange(0, k)) * 10 + digit_value(
            d[k],
        ),
{
    assert(d.subrange(0, k + 1).drop_last() =~= d.subrange(0, k));
}

proof fn lemma_digits_value_prefix(d: Seq<char>, k: int)
    requires
        all_digits(d),
        0 <= k <= d.len(),
    ensures
        0 <= digits_value(d.subrange(0, k)) <= digits_value(d),
    decreases d.len(),
{
    if d.len() > 0 {
        let e = d.drop_last();
        assert(all_digits(e)) by {
            assert forall|i: int| 0 <= i < e.len() implies is_digit(#[trigger] e[i]) by {
                assert(e[i] == d[i]);
            }
        }
        if k == d.len() {
            assert(d.subrange(0, k) =~= d);
            lemma_digits_value_prefix(e, e.len() as int);
            assert(e.subrange(0, e.len() as int) =~= e);
        } else {
            lemma_digits_value_prefix(e, k);
            assert(e.subrange(0, k) =~= d.subrange(0, k));
            lemma_digits_value_prefix(e, e.len() as int);
            assert(e.subrange(0, e.len() as int) =~= e);
            assert(is_digit(d[d.len() - 1]));
        }
    } else {
        assert(d.subrange(0, k) =~= d);
    }
}

/// Reads a base-10 signed 32-bit integer.
pub fn parse_i32(s: &str) -> (r: Option<i32>)
    ensures
        r == parse_i32_spec(s@),
{
    let n = s.unicode_len();
    if n == 0 {
        return None;
    }
    let c0 = s.get_char(0);
    let neg = c0 == '-';
    let start: usize = if c0 == '-' || c0 == '+' { 1 } else { 0 };
    if start >= n {
        return None;
    }
    let ghost d = s@.subrange(start as int, n as int);
    proof {
        if start == 1 {
            assert(d =~= s@.drop_first());
        } else {
            assert(d =~= s@);
        }
    }
    let mut acc: i64 = 0;
    let mut i: usize = start;
    assert(d.subrange(0, 0) =~= seq![]);
    while i < n
        invariant
            n == s@.len(),
            s@[0] == c0,
            neg == (c0 == '-'),
            start == (if c0 == '-' || c0 == '+' { 1usize } else { 0usize }),
            start <= i <= n,
            d == s@.subrange(start as int, n as int),
            start == 1 ==> d == s@.drop_first(),
            start == 0 ==> d == s@,
            d.len() > 0,
            forall|j: int| 0 <= j < i - start ==> is_digit(#[trigger] d[j]),
            acc == digits_value(d.subrange(0, i - start)),
            0 <= acc <= 0x8000_0000,
        decreases n - i,
    {
        let c = s.get_char(i);
        assert(c == d[i - start]);
        if !(c >= '0' && c <= '9') {
            assert(!is_digit(d[i - start]));
            assert(!all_digits(d));
            assert(s@[0] == c0);
            return None;
        }
        proof {
            lemma_digits_value_step(d, i - start);
        }
        acc = acc * 10 + (c as i64 - '0' as i64);
        i = i + 1;
        if acc > 0x8000_0000 {
            proof {
                assert(s@[0] == c0);
                if all_digits(d) {
                    lemma_digits_value_prefix(d, i - start);
                    assert(digits_value(d) > 0x8000_0000);
                }
            }
            return None;
        }
    }
    assert(d.subrange(0, n - start) =~= d);
    assert(all_digits(d));
    let v: i64 = if neg { -acc } else { acc };
    if v < i32::MIN as i64 || v > i32::MAX as i64 {
        None
    } else {
        Some(v as i32)
    }
}

pub open spec fn digit_char(d: nat) -> char {
    if d == 0 { '0' }
    else if d == 1 { '1' }
    else if d == 2 { '2' }
    else if d == 3 { '3' }
    else if d == 4 { '4' }
    else if d == 5 { '5' }
    else if d == 6 { '6' }
    else if d == 7 { '7' }
    else if d == 8 { '8' }
    else { '9' }
}

/// The decimal digits of a natural number, without leading zeros.
pub open spec fn digits_of(m: nat) -> Seq<char>
    decreases m,
{
    if m < 10 {
        seq![digit_char(m)]
    } else {
        digits_of(m / 10).push(digit_char(m % 10))
    }
}

/// The decimal text of an integer, with a leading `-` when it is negative.
pub open spec fn decimal(n: int) -> Seq<char> {
    if n < 0 {
        seq!['-'] + digits_of((-n) as nat)
    } else {
        digits_of(n as nat)
    }
}

fn digit_text(d: u32) -> (r: &'static str)
    requires
        d < 10,
    ensures
        r@ == seq![digit_char(d as nat)],
{
    proof {
        reveal_strlit("0");
        reveal_strlit("1");
        reveal_strlit("2");
        reveal_strlit("3");
        reveal_strlit("4");
        reveal_strlit("5");
        reveal_strlit("6");
        reveal_strlit("7");
        reveal_strlit("8");
        reveal_strlit("9");
    }
    match d {
        0 => "0",
        1 => "1",
        2 => "2",
        3 => "3",
        4 => "4",
        5 => "5",
        6 => "6",
        7 => "7",
        8 => "8",
        _ => "9",
    }
}

/// Writes an integer in decimal.
pub fn decimal_text(n: i32) -> (r: String)
    ensures
        r@ == decimal(n as int),
{
    let big: i64 = n as i64;
    let mag: i64 = if big < 0 { -big } else { big };
    let mut m: u32 = mag as u32;
    let ghost total: nat = m as nat;
    let mut s = String::new();
    assert(s@ =~= seq![]);
    assert(digits_of(total) + s@ =~= digits_of(total));
    while m >= 10
        invariant
            digits_of(total) == digits_of(m as nat) + s@,
        decreases m,
    {
        let t = String::from_str(digit_text(m % 10));
        let ghost old_s = s@;
        s = t.concat(s.as_str());
        assert(digits_of(m as nat) == digits_of((m / 10) as nat).push(digit_char((m % 10) as nat)));
        assert(digits_of(m as nat) + old_s =~= digits_of((m / 10) as nat) + s@);
        m = m / 10;
    }
    s = String::from_str(digit_text(m)).concat(s.as_str());
    if n < 0 {
        s = String::from_str("-").concat(s.as_str());
        proof {
            reveal_strlit("-");
        }
        assert(s@ =~= decimal(n as int));
    }
    s
}

proof fn lemma_digit_char(d: nat)
    requires
        d < 10,
    ensures
        is_digit(digit_char(d)),
        digit_value(digit_char(d)) == d,
{
}

proof fn lemma_digits_of(m: nat)
    ensures
        digits_of(m).len() > 0,
        all_digits(digits_of(m)),
        digits_value(digits_of(m)) == m,
    decreases m,
{
    let w = digits_of(m);
    if m < 10 {
        lemma_digit_char(m);
        assert(w.drop_last() =~= Seq::<char>::empty());
        assert(digits_value(Seq::<char>::empty()) == 0);
    } else {
        lemma_digits_of(m / 10);
        lemma_digit_char(m % 10);
        assert(w.drop_last() =~= digits_of(m / 10));
        assert forall|i: int| 0 <= i < w.len() implies is_digit(#[trigger] w[i]) by {
            if i < w.len() - 1 {
                assert(w[i] == digits_of(m / 10)[i]);
            }
        }
    }
}

/// The decimal text of an integer reads back as that integer.
pub proof fn lemma_decimal_round_trip(n: i32)
    ensures
        parse_i32_spec(decimal(n as int)) == Some(n),
{
    if n < 0 {
        let d = digits_of((-n) as nat);
        lemma_digits_of((-n) as nat);
        assert((seq!['-'] + d).drop_first() =~= d);
    } else {
        let d = digits_of(n as nat);
        lemma_digits_of(n as nat);
        assert(is_digit(d[0]));
    }
}

} // verus!
