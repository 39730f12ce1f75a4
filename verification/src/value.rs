//! Typed values and the rule that reads a token as one of them.

use crate::ascii::is_digit;
use vstd::prelude::*;
use vstd::std_specs::iter::IteratorSpec;
use vstd::string::*;

verus! {

/// The value of a statement.
///
/// A token is never quoted: what it is follows from its shape alone. The
/// keywords `true` and `false` are booleans, a run of digits that fits in 64
/// bits is an integer, and everything else (`glenda`, `9glenda`) is a string.
#[derive(Debug, PartialEq, Clone)]
pub enum NdbValue {
    /// A token that is neither a keyword nor an integer.
    String(String),
    /// A token made of decimal digits only.
    Int(i64),
    /// One of the keywords `true` and `false`.
    Bool(bool),
}

/// The mathematical model of an [`NdbValue`].
pub enum ValueView {
    Text(Seq<char>),
    Int(int),
    Bool(bool),
}

impl View for NdbValue {
    type V = ValueView;

    open spec fn view(&self) -> ValueView {
        match self {
            NdbValue::String(s) => ValueView::Text(s@),
            NdbValue::Int(n) => ValueView::Int(*n as int),
            NdbValue::Bool(b) => ValueView::Bool(*b),
        }
    }
}

/// The keyword `true`, as a sequence of characters.
pub open spec fn true_token() -> Seq<char> {
    seq!['t', 'r', 'u', 'e']
}

/// The keyword `false`, as a sequence of characters.
pub open spec fn false_token() -> Seq<char> {
    seq!['f', 'a', 'l', 's', 'e']
}

/// The number that the digit `c` stands for.
pub open spec fn digit_value(c: char) -> nat {
    (c as u32 - '0' as u32) as nat
}

/// Every character of `s` is a decimal digit.
pub open spec fn all_digits(s: Seq<char>) -> bool {
    forall|i: int| 0 <= i < s.len() ==> is_digit(#[trigger] s[i])
}

/// The number that the digits of `s` denote in base ten, most significant
/// digit first. Leading zeros add nothing, and the empty sequence denotes 0.
pub open spec fn decimal_value(s: Seq<char>) -> nat
    decreases s.len(),
{
    if s.len() == 0 {
        0
    } else {
        decimal_value(s.drop_last()) * 10 + digit_value(s.last())
    }
}

/// The integer that `s` is a literal of: `s` is a non-empty run of digits
/// whose number fits in a signed 64-bit integer.
pub open spec fn integer_spec(s: Seq<char>) -> Option<int> {
    if s.len() > 0 && all_digits(s) && decimal_value(s) <= i64::MAX {
        Some(decimal_value(s) as int)
    } else {
        None
    }
}

/// The value that a token denotes. The first rule that applies decides: the
/// keywords, then integers, then strings.
pub open spec fn classify_spec(token: Seq<char>) -> ValueView {
    if token == true_token() {
        ValueView::Bool(true)
    } else if token == false_token() {
        ValueView::Bool(false)
    } else {
        match integer_spec(token) {
            Some(n) => ValueView::Int(n),
            None => ValueView::Text(token),
        }
    }
}

/// A value as reading a token gives it: an integer is not negative, and a
/// text is one that would not be read as a keyword or an integer.
pub open spec fn is_canonical(v: ValueView) -> bool {
    match v {
        ValueView::Text(t) => t != true_token() && t != false_token() && integer_spec(t) is None,
        ValueView::Int(n) => 0 <= n <= i64::MAX,
        ValueView::Bool(_) => true,
    }
}

/// A longer run of digits never denotes a smaller number than its prefix.
pub proof fn lemma_decimal_value_prefix(s: Seq<char>, n: int)
    requires
        0 <= n <= s.len(),
    ensures
        decimal_value(s.take(n)) <= decimal_value(s),
    decreases s.len() - n,
{
    if n == s.len() {
        assert(s.take(n) == s);
    } else {
        lemma_decimal_value_prefix(s.drop_last(), n);
        assert(s.drop_last().take(n) == s.take(n));
    }
}

/// Reads `token` as a decimal integer literal, in one pass.
pub fn parse_integer(token: &str) -> (r: Option<i64>)
    ensures
        match r {
            Some(n) => integer_spec(token@) == Some(n as int),
            None => integer_spec(token@) is None,
        },
{
    broadcast use {axiom_spec_iter, next_postcondition};

    let mut chars = token.chars();
    let mut acc: i64 = 0;
    let mut seen = false;
    let ghost mut i: int = 0;
    loop
        invariant
            0 <= i <= token@.len(),
            chars.obeys_prophetic_iter_laws(),
            chars.remaining() == token@.skip(i),
            all_digits(token@.take(i)),
            0 <= acc,
            acc == decimal_value(token@.take(i)),
            seen == (i > 0),
        decreases token@.len() - i,
    {
        match chars.next() {
            None => {
                proof {
                    assert(token@.take(i) == token@);
                }
                return if seen {
                    Some(acc)
                } else {
                    None
                };
            },
            Some(c) => {
                assert(c == token@[i]);
                if !('0' <= c && c <= '9') {
                    return None;
                }
                let d: i64 = (c as u32 - '0' as u32) as i64;
                proof {
                    let next = token@.take(i + 1);
                    assert(next.drop_last() == token@.take(i));
                    assert(next.last() == c);
                    assert forall|j: int| 0 <= j < next.len() implies is_digit(
                        #[trigger] next[j],
                    ) by {
                        if j < i {
                            assert(next[j] == token@.take(i)[j]);
                        }
                    }
                    lemma_decimal_value_prefix(token@, i + 1);
                    assert(token@.skip(i).drop_first() =~= token@.skip(i + 1));
                }
                if acc > (i64::MAX - d) / 10 {
                    return None;
                }
                acc = acc * 10 + d;
                seen = true;
                proof {
                    i = i + 1;
                }
            },
        }
    }
}

/// Tells whether `token` is exactly the keyword `true`.
fn is_true_keyword(token: &str, len: usize) -> (r: bool)
    requires
        len == token@.len(),
    ensures
        r == (token@ == true_token()),
{
    let r = len == 4 && token.get_char(0) == 't' && token.get_char(1) == 'r' && token.get_char(2)
        == 'u' && token.get_char(3) == 'e';
    proof {
        if r {
            assert(token@ =~= true_token());
        }
    }
    r
}

/// Tells whether `token` is exactly the keyword `false`.
fn is_false_keyword(token: &str, len: usize) -> (r: bool)
    requires
        len == token@.len(),
    ensures
        r == (token@ == false_token()),
{
    let r = len == 5 && token.get_char(0) == 'f' && token.get_char(1) == 'a' && token.get_char(2)
        == 'l' && token.get_char(3) == 's' && token.get_char(4) == 'e';
    proof {
        if r {
            assert(token@ =~= false_token());
        }
    }
    r
}

/// Reads a token as a typed value: a keyword is a boolean, a run of digits
/// that fits in 64 bits is an integer, anything else is kept as a string.
pub fn classify(token: &str) -> (v: NdbValue)
    ensures
        v@ == classify_spec(token@),
{
    let len = token.unicode_len();
    if is_true_keyword(token, len) {
        NdbValue::Bool(true)
    } else if is_false_keyword(token, len) {
        NdbValue::Bool(false)
    } else {
        match parse_integer(token) {
            Some(n) => NdbValue::Int(n),
            None => NdbValue::String(String::from_str(token)),
        }
    }
}

/// What reading a token gives is canonical.
pub proof fn lemma_classify_canonical(token: Seq<char>)
    ensures
        is_canonical(classify_spec(token)),
{
}

/// The character that stands for the digit `d`.
pub open spec fn digit_char(d: nat) -> char {
    if d == 0 {
        '0'
    } else if d == 1 {
        '1'
    } else if d == 2 {
        '2'
    } else if d == 3 {
        '3'
    } else if d == 4 {
        '4'
    } else if d == 5 {
        '5'
    } else if d == 6 {
        '6'
    } else if d == 7 {
        '7'
    } else if d == 8 {
        '8'
    } else {
        '9'
    }
}

/// The digits of `n` in base ten, most significant first, without leading
/// zeros; those of 0 are `0`.
pub open spec fn decimal_digits(n: nat) -> Seq<char>
    decreases n,
{
    if n < 10 {
        seq![digit_char(n)]
    } else {
        decimal_digits(n / 10).push(digit_char(n % 10))
    }
}

/// The token that a value is written as: a string as it is, a boolean as
/// its keyword, an integer in base ten, with `-` before a negative one.
pub open spec fn render_spec(v: ValueView) -> Seq<char> {
    match v {
        ValueView::Text(t) => t,
        ValueView::Bool(b) => if b {
            true_token()
        } else {
            false_token()
        },
        ValueView::Int(n) => if n < 0 {
            seq!['-'] + decimal_digits((-n) as nat)
        } else {
            decimal_digits(n as nat)
        },
    }
}

/// The digits of a number are a non-empty run of digits that denotes it.
pub proof fn lemma_decimal_digits_value(n: nat)
    ensures
        decimal_digits(n).len() > 0,
        all_digits(decimal_digits(n)),
        decimal_value(decimal_digits(n)) == n,
    decreases n,
{
    let s = decimal_digits(n);
    if n < 10 {
        assert(s.drop_last() =~= Seq::<char>::empty());
        assert(decimal_value(s.drop_last()) == 0);
        assert(s.last() == digit_char(n));
    } else {
        let head = decimal_digits(n / 10);
        lemma_decimal_digits_value(n / 10);
        assert(s.drop_last() =~= head);
        assert(s.last() == digit_char(n % 10));
        assert forall|i: int| 0 <= i < s.len() implies is_digit(#[trigger] s[i]) by {
            if i < head.len() {
                assert(s[i] == head[i]);
            }
        }
    }
}

/// Writing a canonical value as a token and reading that token gives the
/// value back.
pub proof fn lemma_render_then_classify(v: ValueView)
    requires
        is_canonical(v),
    ensures
        classify_spec(render_spec(v)) == v,
{
    match v {
        ValueView::Text(_) => {},
        ValueView::Bool(b) => {
            assert(true_token().len() != false_token().len());
        },
        ValueView::Int(n) => {
            let s = decimal_digits(n as nat);
            lemma_decimal_digits_value(n as nat);
            assert(is_digit(s[0]));
            assert(true_token()[0] == 't');
            assert(false_token()[0] == 'f');
        },
    }
}

/// Reading is idempotent: the token that the value of a token is written
/// as reads as that same value.
pub proof fn lemma_classify_idempotent(token: Seq<char>)
    ensures
        classify_spec(render_spec(classify_spec(token))) == classify_spec(token),
{
    lemma_classify_canonical(token);
    lemma_render_then_classify(classify_spec(token));
}

/// The one-character text of the digit `d`.
fn digit_str(d: u64) -> (r: &'static str)
    requires
        d < 10,
    ensures
        r@ == seq![digit_char(d as nat)],
{
    proof {
        reveal_strlit("0");
        reveal_strlit("1");
        reveal_strlit("2");
        reveal_strlit("3");
        reveal_strlit("4");
        reveal_strlit("5");
        reveal_strlit("6");
        reveal_strlit("7");
        reveal_strlit("8");
        reveal_strlit("9");
    }
    let r = match d {
        0 => "0",
        1 => "1",
        2 => "2",
        3 => "3",
        4 => "4",
        5 => "5",
        6 => "6",
        7 => "7",
        8 => "8",
        _ => "9",
    };
    assert(r@ =~= seq![digit_char(d as nat)]);
    r
}

/// Appends the decimal digits of `n` to `out`.
fn push_decimal(out: &mut String, n: u64)
    ensures
        final(out)@ == old(out)@ + decimal_digits(n as nat),
    decreases n,
{
    if n >= 10 {
        push_decimal(out, n / 10);
    }
    out.append(digit_str(n % 10));
    proof {
        let ghost before = old(out)@;
        if n >= 10 {
            assert(final(out)@ =~= before + decimal_digits(n as nat));
        } else {
            assert(final(out)@ =~= before + decimal_digits(n as nat));
        }
    }
}

impl NdbValue {
    /// Writes the value as a token.
    pub fn to_token(&self) -> (r: String)
        ensures
            r@ == render_spec(self@),
    {
        match self {
            NdbValue::String(s) => s.clone(),
            NdbValue::Bool(b) => {
                proof {
                    reveal_strlit("true");
                    reveal_strlit("false");
                }
                let r = if *b {
                    String::from_str("true")
                } else {
                    String::from_str("false")
                };
                assert(r@ =~= render_spec(self@));
                r
            },
            NdbValue::Int(n) => {
                let mut r = String::new();
                if *n < 0 {
                    proof {
                        reveal_strlit("-");
                    }
                    r.append("-");
                    let magnitude: u64 = (-(*n + 1)) as u64 + 1;
                    push_decimal(&mut r, magnitude);
                    assert(r@ =~= render_spec(self@));
                } else {
                    push_decimal(&mut r, *n as u64);
                    assert(r@ =~= render_spec(self@));
                }
                r
            },
        }
    }
}

} // verus!
