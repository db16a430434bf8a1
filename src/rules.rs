use vstd::prelude::*;

verus! {

/// Index of a resolved symbol, tagged with the table it points into.
#[derive(Clone, Copy, Debug, PartialEq, Eq, Hash, PartialOrd, Ord)]
pub enum SymbolType {
    External,
    End,
    EndOfNonTerminalExtra,
    Terminal,
    NonTerminal,
}

#[derive(Clone, Copy, Debug, PartialEq, Eq, Hash, PartialOrd, Ord)]
pub struct Symbol {
    pub kind: SymbolType,
    pub index: usize,
}

#[derive(Clone, Copy, Debug, PartialEq, Eq, Hash)]
pub enum Associativity {
    Left,
    Right,
}

/// Precedence attached to a rule: absent, a number, or a name declared in
/// the grammar's precedence orderings.
#[derive(Clone, Debug, PartialEq, Eq, Hash)]
pub enum Precedence {
    Absent,
    Integer(i32),
    Name(String),
}

#[derive(Clone, Debug, PartialEq, Eq, Hash)]
pub struct Alias {
    pub value: String,
    pub is_named: bool,
}

#[derive(Clone, Debug, PartialEq, Eq, Hash)]
pub struct MetadataParams {
    pub precedence: Precedence,
    pub dynamic_precedence: i32,
    pub associativity: Option<Associativity>,
    pub is_token: bool,
    pub is_main_token: bool,
    pub alias: Option<Alias>,
    pub field_name: Option<String>,
}

/// A grammar rule tree.
#[derive(Debug, PartialEq, Eq)]
pub enum Rule {
    Blank,
    String(String),
    Pattern(String, String),
    NamedSymbol(String),
    Symbol(Symbol),
    Choice(Vec<Rule>),
    Metadata { params: MetadataParams, rule: Box<Rule> },
    Repeat(Box<Rule>),
    Sequence(Vec<Rule>),
}

impl Precedence {
    pub fn copy(&self) -> (r: Precedence)
        ensures
            r == *self,
    {
        match self {
            Precedence::Absent => Precedence::Absent,
            Precedence::Integer(k) => Precedence::Integer(*k),
            Precedence::Name(n) => Precedence::Name(n.clone()),
        }
    }
}

impl MetadataParams {
    pub fn copy(&self) -> (r: MetadataParams)
        ensures
            r == *self,
    {
        let alias = match &self.alias {
            Some(a) => Some(Alias { value: a.value.clone(), is_named: a.is_named }),
            None => None,
        };
        let field_name = match &self.field_name {
            Some(f) => Some(f.clone()),
            None => None,
        };
        MetadataParams {
            precedence: self.precedence.copy(),
            dynamic_precedence: self.dynamic_precedence,
            associativity: self.associativity,
            is_token: self.is_token,
            is_main_token: self.is_main_token,
            alias,
            field_name,
        }
    }
}

impl MetadataParams {
    /// Parameters that attach nothing.
    pub fn empty() -> (r: MetadataParams)
        ensures
            r.precedence is Absent,
            r.dynamic_precedence == 0,
            r.associativity is None,
            !r.is_token,
            !r.is_main_token,
            r.alias is None,
            r.field_name is None,
    {
        MetadataParams {
            precedence: Precedence::Absent,
            dynamic_precedence: 0,
            associativity: None,
            is_token: false,
            is_main_token: false,
            alias: None,
            field_name: None,
        }
    }
}

impl Rule {
    /// A literal string token.
    pub fn string(value: &str) -> (r: Rule)
        ensures
            r matches Rule::String(s) && s@ == value@,
    {
        Rule::String(value.to_owned())
    }

    /// Zero or more repetitions of `content`.
    pub fn repeat(content: Rule) -> (r: Rule)
        ensures
            r matches Rule::Repeat(inner) && *inner == content,
    {
        Rule::Repeat(Box::new(content))
    }

    /// `content` with the given precedence.
    pub fn prec(value: Precedence, content: Rule) -> (r: Rule)
        ensures
            r matches Rule::Metadata { params, rule } && params.precedence == value
                && params.associativity is None && params.dynamic_precedence == 0
                && !params.is_token && !params.is_main_token && params.alias is None
                && params.field_name is None && *rule == content,
    {
        let mut params = MetadataParams::empty();
        params.precedence = value;
        Rule::Metadata { params, rule: Box::new(content) }
    }

    /// `content` with the given precedence, associating to the left.
    pub fn prec_left(value: Precedence, content: Rule) -> (r: Rule)
        ensures
            r matches Rule::Metadata { params, rule } && params.precedence == value
                && params.associativity == Some(Associativity::Left) && params.dynamic_precedence == 0
                && !params.is_token && !params.is_main_token && params.alias is None
                && params.field_name is None && *rule == content,
    {
        let mut params = MetadataParams::empty();
        params.precedence = value;
        params.associativity = Some(Associativity::Left);
        Rule::Metadata { params, rule: Box::new(content) }
    }

    /// `content` with the given precedence, associating to the right.
    pub fn prec_right(value: Precedence, content: Rule) -> (r: Rule)
        ensures
            r matches Rule::Metadata { params, rule } && params.precedence == value
                && params.associativity == Some(Associativity::Right) && params.dynamic_precedence == 0
                && !params.is_token && !params.is_main_token && params.alias is None
                && params.field_name is None && *rule == content,
    {
        let mut params = MetadataParams::empty();
        params.precedence = value;
        params.associativity = Some(Associativity::Right);
        Rule::Metadata { params, rule: Box::new(content) }
    }
}

} // verus!
