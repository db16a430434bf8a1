use vstd::prelude::*;
use vstd::string::*;
use crate::rules::{Rule, Symbol};

verus! {

#[derive(Clone, Copy, Debug, PartialEq, Eq, Hash)]
pub enum VariableType {
    Hidden,
    Auxiliary,
    Anonymous,
    Named,
}

/// A named grammar rule.
#[derive(Debug, PartialEq, Eq)]
pub struct Variable {
    pub name: String,
    pub kind: VariableType,
    pub rule: Rule,
}

/// An external token after extraction: its name, its kind, and the lexical
/// token that stands for it inside the grammar, if any.
#[derive(Clone, Debug, PartialEq, Eq)]
pub struct ExternalToken {
    pub name: String,
    pub kind: VariableType,
    pub corresponding_internal_token: Option<Symbol>,
}

/// One element of a declared precedence ordering: a precedence name or a
/// number.
#[derive(Clone, Debug, PartialEq, Eq, Hash)]
pub enum PrecedenceEntry {
    Name(String),
    Number(i32),
}

/// A named set of reserved words, each held as a rule before symbols are
/// resolved and as a symbol after.
#[derive(Debug, PartialEq, Eq)]
pub struct ReservedWordContext<T> {
    pub name: String,
    pub reserved_words: Vec<T>,
}

/// A grammar as handed over by the grammar reader, before any preparation.
#[derive(Debug, PartialEq, Eq)]
pub struct InputGrammar {
    pub name: String,
    pub variables: Vec<Variable>,
    pub extra_symbols: Vec<Rule>,
    pub expected_conflicts: Vec<Vec<String>>,
    pub precedence_orderings: Vec<Vec<PrecedenceEntry>>,
    pub external_tokens: Vec<Rule>,
    pub variables_to_inline: Vec<String>,
    pub supertype_symbols: Vec<String>,
    pub word_token: Option<String>,
    pub reserved_words: Vec<ReservedWordContext<Rule>>,
}

impl Default for InputGrammar {
    fn default() -> (r: InputGrammar)
        ensures
            r.name@.len() == 0,
            r.variables@.len() == 0,
            r.extra_symbols@.len() == 0,
            r.expected_conflicts@.len() == 0,
            r.precedence_orderings@.len() == 0,
            r.external_tokens@.len() == 0,
            r.variables_to_inline@.len() == 0,
            r.supertype_symbols@.len() == 0,
            r.word_token is None,
            r.reserved_words@.len() == 0,
    {
        InputGrammar {
            name: String::new(),
            variables: Vec::new(),
            extra_symbols: Vec::new(),
            expected_conflicts: Vec::new(),
            precedence_orderings: Vec::new(),
            external_tokens: Vec::new(),
            variables_to_inline: Vec::new(),
            supertype_symbols: Vec::new(),
            word_token: None,
            reserved_words: Vec::new(),
        }
    }
}

/// Two entries denote the same precedence.
pub open spec fn same_entry(a: PrecedenceEntry, b: PrecedenceEntry) -> bool {
    match (a, b) {
        (PrecedenceEntry::Name(x), PrecedenceEntry::Name(y)) => x@ == y@,
        (PrecedenceEntry::Number(x), PrecedenceEntry::Number(y)) => x == y,
        _ => false,
    }
}

/// Lexicographic order of character sequences, by code point.
pub open spec fn chars_lt(x: Seq<char>, y: Seq<char>) -> bool
    decreases x.len(),
{
    if x.len() == 0 {
        y.len() > 0
    } else if y.len() == 0 {
        false
    } else if x[0] != y[0] {
        x[0] < y[0]
    } else {
        chars_lt(x.drop_first(), y.drop_first())
    }
}

/// The canonical order on precedence entries: names before numbers, names
/// lexicographically, numbers by value.
pub open spec fn entry_lt(a: PrecedenceEntry, b: PrecedenceEntry) -> bool {
    match (a, b) {
        (PrecedenceEntry::Name(x), PrecedenceEntry::Name(y)) => chars_lt(x@, y@),
        (PrecedenceEntry::Name(_), PrecedenceEntry::Number(_)) => true,
        (PrecedenceEntry::Number(x), PrecedenceEntry::Number(y)) => x < y,
        _ => false,
    }
}

pub open spec fn digit_char(d: nat) -> char {
    seq!['0', '1', '2', '3', '4', '5', '6', '7', '8', '9'][d as int]
}

/// Decimal digits of a natural number, without leading zeros.
pub open spec fn digits(n: nat) -> Seq<char>
    decreases n,
{
    if n < 10 {
        seq![digit_char(n)]
    } else {
        digits(n / 10) + seq![digit_char(n % 10)]
    }
}

/// An integer written in decimal, with a leading minus sign when negative.
pub open spec fn decimal_text(n: int) -> Seq<char> {
    if n < 0 {
        seq!['-'] + digits((-n) as nat)
    } else {
        digits(n as nat)
    }
}

/// How an entry is shown in messages: a name in single quotes, a number as
/// its numeral.
pub open spec fn entry_text(e: PrecedenceEntry) -> Seq<char> {
    match e {
        PrecedenceEntry::Name(n) => seq!['\''] + n@ + seq!['\''],
        PrecedenceEntry::Number(k) => decimal_text(k as int),
    }
}

fn digit_str(d: u32) -> (r: &'static str)
    requires
        d < 10,
    ensures
        r@ == seq![digit_char(d as nat)],
{
    proof {
        reveal_strlit("0");
        reveal_strlit("1");
        reveal_strlit("2");
        reveal_strlit("3");
        reveal_strlit("4");
        reveal_strlit("5");
        reveal_strlit("6");
        reveal_strlit("7");
        reveal_strlit("8");
        reveal_strlit("9");
    }
    let r = match d {
        0 => "0",
        1 => "1",
        2 => "2",
        3 => "3",
        4 => "4",
        5 => "5",
        6 => "6",
        7 => "7",
        8 => "8",
        _ => "9",
    };
    assert(r@ =~= seq![digit_char(d as nat)]);
    r
}

/// Appends the decimal digits of `n`.
fn append_digits(s: &mut String, n: u32)
    ensures
        final(s)@ == old(s)@ + digits(n as nat),
    decreases n,
{
    if n >= 10 {
        append_digits(s, n / 10);
    }
    s.append(digit_str(n % 10));
    assert(digits(n as nat) == if n < 10 {
        seq![digit_char(n as nat)]
    } else {
        digits((n / 10) as nat) + seq![digit_char((n % 10) as nat)]
    });
    proof {
        if n >= 10 {
            assert(old(s)@ + digits((n / 10) as nat) + seq![digit_char((n % 10) as nat)]
                =~= old(s)@ + digits(n as nat));
        }
    }
}

/// Writes an integer in decimal, with a leading minus sign when negative.
fn i32_to_decimal(n: i32) -> (r: String)
    ensures
        r@ == decimal_text(n as int),
{
    let mut s = String::new();
    if n < 0 {
        s.append("-");
        proof {
            reveal_strlit("-");
        }
        let magnitude: u32 = (0i64 - n as i64) as u32;
        append_digits(&mut s, magnitude);
    } else {
        append_digits(&mut s, n as u32);
    }
    assert(s@ =~= decimal_text(n as int));
    s
}

fn chars_less(x: &str, y: &str) -> (r: bool)
    ensures
        r == chars_lt(x@, y@),
{
    let xl = x.unicode_len();
    let yl = y.unicode_len();
    let mut i: usize = 0;
    assert(x@.skip(0) =~= x@);
    assert(y@.skip(0) =~= y@);
    while i < xl && i < yl
        invariant
            xl == x@.len(),
            yl == y@.len(),
            i <= xl,
            i <= yl,
            chars_lt(x@, y@) == chars_lt(x@.skip(i as int), y@.skip(i as int)),
        decreases xl - i,
    {
        let cx = x.get_char(i);
        let cy = y.get_char(i);
        if cx != cy {
            return cx < cy;
        }
        assert(x@.skip(i as int).drop_first() =~= x@.skip(i + 1));
        assert(y@.skip(i as int).drop_first() =~= y@.skip(i + 1));
        i = i + 1;
    }
    i < yl && i == xl
}

impl PrecedenceEntry {
    pub fn copy(&self) -> (r: PrecedenceEntry)
        ensures
            r == *self,
    {
        match self {
            PrecedenceEntry::Name(n) => PrecedenceEntry::Name(n.clone()),
            PrecedenceEntry::Number(k) => PrecedenceEntry::Number(*k),
        }
    }

    /// Whether the two entries denote the same precedence.
    pub fn same_as(&self, other: &PrecedenceEntry) -> (r: bool)
        ensures
            r == same_entry(*self, *other),
    {
        match (self, other) {
            (PrecedenceEntry::Name(x), PrecedenceEntry::Name(y)) => *x == *y,
            (PrecedenceEntry::Number(x), PrecedenceEntry::Number(y)) => *x == *y,
            _ => false,
        }
    }

    /// Whether this entry comes strictly before `other` in the canonical
    /// order.
    pub fn precedes(&self, other: &PrecedenceEntry) -> (r: bool)
        ensures
            r == entry_lt(*self, *other),
    {
        match (self, other) {
            (PrecedenceEntry::Name(x), PrecedenceEntry::Name(y)) => chars_less(x.as_str(), y.as_str()),
            (PrecedenceEntry::Name(_), PrecedenceEntry::Number(_)) => true,
            (PrecedenceEntry::Number(x), PrecedenceEntry::Number(y)) => *x < *y,
            _ => false,
        }
    }

    /// The entry as shown in messages.
    pub fn to_text(&self) -> (r: String)
        ensures
            r@ == entry_text(*self),
    {
        match self {
            PrecedenceEntry::Name(n) => {
                let mut s = String::from_str("'");
                s.append(n.as_str());
                s.append("'");
                proof {
                    reveal_strlit("'");
                }
                s
            },
            PrecedenceEntry::Number(k) => i32_to_decimal(*k),
        }
    }
}

} // verus!
