//! The grammar of one statement: a key of letters, `=`, and a value token
//! of letters and digits.
//!
//! ```text
//! name=glenda
//! ^^^^ ^^^^^^
//! key  value
//! ```

use crate::ascii::{
    all_in, is_alnum, lemma_run_len_is_run, lemma_run_unique, leading_run, run_len, CharClass,
};
use crate::value::{classify, classify_spec, is_canonical, ValueView};
pub use crate::value::NdbValue;
use vstd::prelude::*;
use vstd::string::*;

verus! {

/// One parsed `key=value` statement.
#[derive(Debug, PartialEq, Clone)]
pub struct NdbStmt {
    /// What stands before the `=`.
    pub key: String,
    /// What stands behind the `=`, typed.
    pub value: NdbValue,
}

/// A database: statements in the order in which they were read.
#[derive(Debug, PartialEq, Clone)]
pub struct Ndb {
    /// The statements, first read first.
    pub statements: Vec<NdbStmt>,
}

/// The mathematical model of an [`NdbStmt`].
pub struct StmtView {
    pub key: Seq<char>,
    pub value: ValueView,
}

impl View for NdbStmt {
    type V = StmtView;

    open spec fn view(&self) -> StmtView {
        StmtView { key: self.key@, value: self.value@ }
    }
}

impl View for Ndb {
    type V = Seq<StmtView>;

    open spec fn view(&self) -> Seq<StmtView> {
        self.statements@.map_values(|stmt: NdbStmt| stmt@)
    }
}

impl StmtView {
    /// What holds of every statement that was parsed: the key is a non-empty
    /// run of letters, and the value is what its token reads as, the token
    /// being a non-empty run of letters and digits.
    pub open spec fn wf(self) -> bool {
        &&& self.key.len() > 0
        &&& all_in(self.key, CharClass::Alpha)
        &&& is_canonical(self.value)
        &&& self.value matches ValueView::Text(t) ==> t.len() > 0 && all_in(t, CharClass::Alnum)
    }
}

/// Why a text is not a statement.
#[derive(Debug, PartialEq, Eq, Clone, Copy, Structural)]
pub enum ParseError {
    /// The text does not have the shape `key=value`. `offset` counts the
    /// characters that did match: it is the position of the first one that
    /// the grammar cannot take, or the length of the text where it ends too
    /// early.
    Syntax { offset: usize },
}

impl ParseError {
    /// The number of characters that matched before the text stopped being
    /// a statement.
    pub fn offset(&self) -> (r: usize)
        ensures
            self == (ParseError::Syntax { offset: r }),
    {
        match self {
            ParseError::Syntax { offset } => *offset,
        }
    }
}

/// The value at the start of `s`: its leading run of letters and digits,
/// typed, and the text behind it. There is none where that run is empty.
pub open spec fn value_spec(s: Seq<char>) -> Option<(Seq<char>, ValueView)> {
    let m = run_len(s, CharClass::Alnum) as int;
    if m == 0 {
        None
    } else {
        Some((s.skip(m), classify_spec(s.take(m))))
    }
}

/// A value that was parsed is canonical, and a text among them is a
/// non-empty run of letters and digits.
pub proof fn lemma_value_spec_canonical(s: Seq<char>)
    ensures
        value_spec(s) matches Some((_, value)) ==> {
            &&& is_canonical(value)
            &&& value matches ValueView::Text(t) ==> t.len() > 0 && all_in(t, CharClass::Alnum)
        },
{
    lemma_run_len_is_run(s, CharClass::Alnum);
    let m = run_len(s, CharClass::Alnum) as int;
    if m > 0 {
        let token = s.take(m);
        assert forall|i: int| 0 <= i < token.len() implies CharClass::Alnum.contains(
            #[trigger] token[i],
        ) by {
            assert(token[i] == s[i]);
        }
    }
}

/// The statement at the start of `s` and the text behind it, or the offset
/// at which `s` stops being one.
pub open spec fn stmt_spec(s: Seq<char>) -> Result<(Seq<char>, StmtView), int> {
    let k = run_len(s, CharClass::Alpha) as int;
    if k == 0 {
        Err(0)
    } else if k >= s.len() || s[k] != '=' {
        Err(k)
    } else {
        match value_spec(s.skip(k + 1)) {
            None => Err(k + 1),
            Some((rest, value)) => Ok((rest, StmtView { key: s.take(k), value })),
        }
    }
}

/// Parses the value that `input` starts with, and returns it with the rest
/// of the input.
pub fn parse_value<'a>(input: &'a str) -> (r: Result<(&'a str, NdbValue), ParseError>)
    ensures
        match r {
            Ok((rest, value)) => value_spec(input@) == Some((rest@, value@)),
            Err(e) => value_spec(input@) is None && e == (ParseError::Syntax { offset: 0 }),
        },
{
    let len = input.unicode_len();
    let end = leading_run(input, CharClass::Alnum);
    if end == 0 {
        return Err(ParseError::Syntax { offset: 0 });
    }
    let token = input.substring_char(0, end);
    let rest = input.substring_char(end, len);
    proof {
        assert(input@.subrange(0, end as int) == input@.take(end as int));
        assert(input@.subrange(end as int, len as int) == input@.skip(end as int));
    }
    Ok((rest, classify(token)))
}

/// Parses the statement that `input` starts with, and returns it with the
/// rest of the input. The rest need not be empty: whoever wants a whole line
/// to be one statement looks at it.
pub fn ndb_stmt<'a>(input: &'a str) -> (r: Result<(&'a str, NdbStmt), ParseError>)
    ensures
        match r {
            Ok((rest, stmt)) => stmt_spec(input@) == Ok::<_, int>((rest@, stmt@)) && stmt@.wf(),
            Err(ParseError::Syntax { offset }) => stmt_spec(input@) == Err::<(Seq<char>, StmtView), _>(
                offset as int,
            ),
        },
{
    let len = input.unicode_len();
    let k = leading_run(input, CharClass::Alpha);
    if k == 0 {
        return Err(ParseError::Syntax { offset: 0 });
    }
    if k >= len || input.get_char(k) != '=' {
        return Err(ParseError::Syntax { offset: k });
    }
    let tail = input.substring_char(k + 1, len);
    proof {
        assert(input@.subrange(k + 1, len as int) == input@.skip(k + 1));
    }
    match parse_value(tail) {
        Err(_) => Err(ParseError::Syntax { offset: k + 1 }),
        Ok((rest, value)) => {
            let key = String::from_str(input.substring_char(0, k));
            proof {
                assert(input@.subrange(0, k as int) == input@.take(k as int));
                lemma_run_len_is_run(input@, CharClass::Alpha);
                assert forall|i: int| 0 <= i < key@.len() implies CharClass::Alpha.contains(
                    #[trigger] key@[i],
                ) by {
                    assert(key@[i] == input@[i]);
                }
                lemma_value_spec_canonical(input@.skip(k + 1));
            }
            Ok((rest, NdbStmt { key, value }))
        },
    }
}

/// A key, `=`, a token and text that cannot lengthen the token parse as
/// the statement of that key and the value of that token, with that text
/// left over.
pub proof fn lemma_statement_then_rest(key: Seq<char>, token: Seq<char>, rest: Seq<char>)
    requires
        key.len() > 0,
        all_in(key, CharClass::Alpha),
        token.len() > 0,
        all_in(token, CharClass::Alnum),
        rest.len() > 0 ==> !is_alnum(rest[0]),
    ensures
        stmt_spec(key + seq!['='] + token + rest) == Ok::<_, int>(
            (rest, StmtView { key, value: classify_spec(token) }),
        ),
{
    let s = key + seq!['='] + token + rest;
    let k = key.len() as int;
    let m = token.len() as int;
    assert forall|i: int| 0 <= i < k implies CharClass::Alpha.contains(#[trigger] s[i]) by {
        assert(s[i] == key[i]);
    }
    assert(s[k] == '=');
    lemma_run_unique(s, CharClass::Alpha, k);
    let tail = s.skip(k + 1);
    assert(tail =~= token + rest);
    assert forall|i: int| 0 <= i < m implies CharClass::Alnum.contains(#[trigger] tail[i]) by {
        assert(tail[i] == token[i]);
    }
    if m < tail.len() {
        assert(tail[m] == rest[0]);
    }
    lemma_run_unique(tail, CharClass::Alnum, m);
    assert(tail.take(m) =~= token);
    assert(tail.skip(m) =~= rest);
    assert(s.take(k) =~= key);
}

/// A text that parses is made of the key, `=`, a token that reads as the
/// value, and the rest, which cannot lengthen the token.
pub proof fn lemma_parsed_text_shape(s: Seq<char>)
    ensures
        stmt_spec(s) matches Ok((rest, stmt)) ==> {
            &&& stmt.wf()
            &&& rest.len() > 0 ==> !is_alnum(rest[0])
            &&& exists|token: Seq<char>|
                {
                    &&& s == stmt.key + seq!['='] + token + rest
                    &&& token.len() > 0
                    &&& all_in(token, CharClass::Alnum)
                    &&& stmt.value == #[trigger] classify_spec(token)
                }
        },
{
    if let Ok((rest, stmt)) = stmt_spec(s) {
        let k = run_len(s, CharClass::Alpha) as int;
        lemma_run_len_is_run(s, CharClass::Alpha);
        let tail = s.skip(k + 1);
        let m = run_len(tail, CharClass::Alnum) as int;
        lemma_run_len_is_run(tail, CharClass::Alnum);
        lemma_value_spec_canonical(tail);
        let token = tail.take(m);
        assert forall|i: int| 0 <= i < k implies CharClass::Alpha.contains(
            #[trigger] stmt.key[i],
        ) by {
            assert(stmt.key[i] == s[i]);
        }
        assert forall|i: int| 0 <= i < m implies CharClass::Alnum.contains(#[trigger] token[i]) by {
            assert(token[i] == tail[i]);
        }
        if rest.len() > 0 {
            assert(rest[0] == tail[m]);
        }
        assert(s =~= stmt.key + seq!['='] + token + rest);
        assert(stmt.value == classify_spec(token));
    }
}

/// A key of letters, `=` and a token of letters and digits parse as the
/// statement of that key and the value of that token, and nothing is left
/// over.
pub proof fn lemma_statement_of_parts(key: Seq<char>, token: Seq<char>)
    requires
        key.len() > 0,
        all_in(key, CharClass::Alpha),
        token.len() > 0,
        all_in(token, CharClass::Alnum),
    ensures
        stmt_spec(key + seq!['='] + token) == Ok::<_, int>(
            (Seq::<char>::empty(), StmtView { key, value: classify_spec(token) }),
        ),
{
    lemma_statement_then_rest(key, token, Seq::<char>::empty());
    assert(key + seq!['='] + token + Seq::<char>::empty() =~= key + seq!['='] + token);
}

} // verus!
