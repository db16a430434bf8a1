use vstd::prelude::*;
use vstd::string::*;
use crate::grammars::{
    entry_lt, entry_text, same_entry, ExternalToken, InputGrammar, PrecedenceEntry,
    ReservedWordContext, Variable,
};
use crate::intern_symbols::{first_undefined_in_grammar, intern_symbols, interned_grammar, InternSymbolsError};
use crate::rules::{Precedence, Rule, Symbol};

verus! {

broadcast use vstd::std_specs::vec::group_vec_axioms;

/// A rule uses a named precedence that no ordering declares.
pub struct UndeclaredPrecedenceError {
    pub precedence: String,
    pub rule: String,
}

/// Two precedence orderings put the same two entries in opposite orders.
pub struct ConflictingPrecedenceOrderingError {
    pub precedence_1: String,
    pub precedence_2: String,
}

pub enum ValidatePrecedenceError {
    Undeclared(UndeclaredPrecedenceError),
    Ordering(ConflictingPrecedenceOrderingError),
}

pub type ValidatePrecedenceResult<T> = Result<T, ValidatePrecedenceError>;

/// The first failure of grammar preparation, from the stage that found it.
pub enum PrepareGrammarError {
    ValidatePrecedences(ValidatePrecedenceError),
    InternSymbols(InternSymbolsError),
}

pub type PrepareGrammarResult<T> = Result<T, PrepareGrammarError>;

impl UndeclaredPrecedenceError {
    /// The message shown to the grammar author.
    pub fn message(&self) -> (r: String)
        ensures
            r@ == "Undeclared precedence '"@ + self.precedence@ + "' in rule '"@ + self.rule@ + "'"@,
    {
        let mut s = String::from_str("Undeclared precedence '");
        s.append(self.precedence.as_str());
        s.append("' in rule '");
        s.append(self.rule.as_str());
        s.append("'");
        s
    }
}

impl ConflictingPrecedenceOrderingError {
    /// The message shown to the grammar author.
    pub fn message(&self) -> (r: String)
        ensures
            r@ == "Conflicting orderings for precedences "@ + self.precedence_1@ + " and "@
                + self.precedence_2@,
    {
        let mut s = String::from_str("Conflicting orderings for precedences ");
        s.append(self.precedence_1.as_str());
        s.append(" and ");
        s.append(self.precedence_2.as_str());
        s
    }
}

impl PrepareGrammarError {
    /// The message of the wrapped error.
    pub fn message(&self) -> (r: String)
        ensures
            self matches PrepareGrammarError::ValidatePrecedences(ValidatePrecedenceError::Undeclared(e))
                ==> r@ == "Undeclared precedence '"@ + e.precedence@ + "' in rule '"@ + e.rule@ + "'"@,
            self matches PrepareGrammarError::ValidatePrecedences(ValidatePrecedenceError::Ordering(e))
                ==> r@ == "Conflicting orderings for precedences "@ + e.precedence_1@ + " and "@
                + e.precedence_2@,
            self matches PrepareGrammarError::InternSymbols(InternSymbolsError::Undefined(n))
                ==> r@ == "Undefined symbol `"@ + n@ + "`"@,
    {
        match self {
            PrepareGrammarError::ValidatePrecedences(e) => e.message(),
            PrepareGrammarError::InternSymbols(e) => e.message(),
        }
    }
}

impl ValidatePrecedenceError {
    /// The message of the wrapped error.
    pub fn message(&self) -> (r: String)
        ensures
            self matches ValidatePrecedenceError::Undeclared(e) ==> r@
                == "Undeclared precedence '"@ + e.precedence@ + "' in rule '"@ + e.rule@ + "'"@,
            self matches ValidatePrecedenceError::Ordering(e) ==> r@
                == "Conflicting orderings for precedences "@ + e.precedence_1@ + " and "@
                + e.precedence_2@,
    {
        match self {
            ValidatePrecedenceError::Undeclared(e) => e.message(),
            ValidatePrecedenceError::Ordering(e) => e.message(),
        }
    }
}

/// A grammar between two stages of preparation. `T` is how extra symbols are
/// held (rules before token extraction, symbols after), `U` how external
/// tokens are held.
pub struct IntermediateGrammar<T, U> {
    pub variables: Vec<Variable>,
    pub extra_symbols: Vec<T>,
    pub expected_conflicts: Vec<Vec<Symbol>>,
    pub precedence_orderings: Vec<Vec<PrecedenceEntry>>,
    pub external_tokens: Vec<U>,
    pub variables_to_inline: Vec<Symbol>,
    pub supertype_symbols: Vec<Symbol>,
    pub word_token: Option<Symbol>,
    pub reserved_word_sets: Vec<ReservedWordContext<T>>,
}

/// The grammar after symbol interning: every name in a rule resolved.
pub type InternedGrammar = IntermediateGrammar<Rule, Variable>;

/// The syntactic part of a grammar after token extraction.
pub type ExtractedSyntaxGrammar = IntermediateGrammar<Symbol, ExternalToken>;

/// The lexical part of a grammar after token extraction: the token
/// definitions and the separators allowed between tokens.
#[derive(Debug, PartialEq, Eq)]
pub struct ExtractedLexicalGrammar {
    pub variables: Vec<Variable>,
    pub separators: Vec<Rule>,
}

impl<T, U> Default for IntermediateGrammar<T, U> {
    fn default() -> (r: Self)
        ensures
            r.variables@.len() == 0,
            r.extra_symbols@.len() == 0,
            r.expected_conflicts@.len() == 0,
            r.precedence_orderings@.len() == 0,
            r.external_tokens@.len() == 0,
            r.variables_to_inline@.len() == 0,
            r.supertype_symbols@.len() == 0,
            r.word_token is None,
            r.reserved_word_sets@.len() == 0,
    {
        IntermediateGrammar {
            variables: Vec::new(),
            extra_symbols: Vec::new(),
            expected_conflicts: Vec::new(),
            precedence_orderings: Vec::new(),
            external_tokens: Vec::new(),
            variables_to_inline: Vec::new(),
            supertype_symbols: Vec::new(),
            word_token: None,
            reserved_word_sets: Vec::new(),
        }
    }
}

// ---------------------------------------------------------------------------
// Declared names and the first undeclared one

pub open spec fn names_entry(e: PrecedenceEntry, name: Seq<char>) -> bool {
    e matches PrecedenceEntry::Name(n) && n@ == name
}

/// `name` appears as a name in some precedence ordering.
pub open spec fn declared(ords: Seq<Vec<PrecedenceEntry>>, name: Seq<char>) -> bool {
    exists|l: int, i: int|
        0 <= l < ords.len() && 0 <= i < ords[l]@.len() && #[trigger] names_entry(ords[l]@[i], name)
}

/// The first named precedence in `rule`, in pre-order, that is not declared.
pub open spec fn first_undeclared(rule: Rule, ords: Seq<Vec<PrecedenceEntry>>) -> Option<Seq<char>>
    decreases rule, 0int,
{
    match rule {
        Rule::Repeat(inner) => first_undeclared(*inner, ords),
        Rule::Sequence(v) => first_undeclared_among(v, 0, ords),
        Rule::Choice(v) => first_undeclared_among(v, 0, ords),
        Rule::Metadata { params, rule: inner } => match params.precedence {
            Precedence::Name(n) => if !declared(ords, n@) {
                Some(n@)
            } else {
                first_undeclared(*inner, ords)
            },
            _ => first_undeclared(*inner, ords),
        },
        _ => None,
    }
}

/// The first undeclared named precedence among `v[i..]`.
pub open spec fn first_undeclared_among(v: Vec<Rule>, i: int, ords: Seq<Vec<PrecedenceEntry>>) -> Option<Seq<char>>
    decreases v, v@.len() - i,
{
    if 0 <= i < v@.len() {
        match first_undeclared(v[i], ords) {
            Some(n) => Some(n),
            None => first_undeclared_among(v, i + 1, ords),
        }
    } else {
        None
    }
}

/// The first undeclared named precedence among `vars[i..]`, with the name of
/// the variable that uses it.
pub open spec fn first_undeclared_var(vars: Seq<Variable>, i: int, ords: Seq<Vec<PrecedenceEntry>>) -> Option<(Seq<char>, Seq<char>)>
    decreases vars.len() - i,
{
    if 0 <= i < vars.len() {
        match first_undeclared(vars[i].rule, ords) {
            Some(n) => Some((n, vars[i].name@)),
            None => first_undeclared_var(vars, i + 1, ords),
        }
    } else {
        None
    }
}

fn is_declared(ords: &Vec<Vec<PrecedenceEntry>>, name: &String) -> (r: bool)
    ensures
        r == declared(ords@, name@),
{
    let mut l: usize = 0;
    while l < ords.len()
        invariant
            l <= ords@.len(),
            forall|ll: int, i: int| 0 <= ll < l && 0 <= i < ords@[ll]@.len() ==> !#[trigger] names_entry(ords@[ll]@[i], name@),
        decreases ords@.len() - l,
    {
        let list = &ords[l];
        let mut i: usize = 0;
        while i < list.len()
            invariant
                l < ords@.len(),
                *list == ords@[l as int],
                i <= list@.len(),
                forall|ll: int, ii: int| 0 <= ll < l && 0 <= ii < ords@[ll]@.len() ==> !#[trigger] names_entry(ords@[ll]@[ii], name@),
                forall|ii: int| 0 <= ii < i ==> !#[trigger] names_entry(list@[ii], name@),
            decreases list@.len() - i,
        {
            if let PrecedenceEntry::Name(n) = &list[i] {
                if *n == *name {
                    assert(names_entry(ords@[l as int]@[i as int], name@));
                    return true;
                }
            }
            i = i + 1;
        }
        l = l + 1;
    }
    false
}

fn undeclared_in<'a>(rule: &'a Rule, ords: &Vec<Vec<PrecedenceEntry>>) -> (r: Option<&'a String>)
    ensures
        r matches Some(n) ==> first_undeclared(*rule, ords@) == Some(n@),
        r is None ==> first_undeclared(*rule, ords@) is None,
    decreases rule,
{
    match rule {
        Rule::Repeat(inner) => undeclared_in(inner, ords),
        Rule::Sequence(v) => undeclared_among(v, ords),
        Rule::Choice(v) => undeclared_among(v, ords),
        Rule::Metadata { params, rule: inner } => {
            if let Precedence::Name(n) = &params.precedence {
                if !is_declared(ords, n) {
                    return Some(n);
                }
            }
            undeclared_in(inner, ords)
        },
        _ => None,
    }
}

fn undeclared_among<'a>(v: &'a Vec<Rule>, ords: &Vec<Vec<PrecedenceEntry>>) -> (r: Option<&'a String>)
    ensures
        r matches Some(n) ==> first_undeclared_among(*v, 0, ords@) == Some(n@),
        r is None ==> first_undeclared_among(*v, 0, ords@) is None,
    decreases v, 1int,
{
    let mut i: usize = 0;
    while i < v.len()
        invariant
            i <= v@.len(),
            first_undeclared_among(*v, 0, ords@) == first_undeclared_among(*v, i as int, ords@),
        decreases v@.len() - i,
    {
        let found = undeclared_in(&v[i], ords);
        if found.is_some() {
            return found;
        }
        i = i + 1;
    }
    None
}

// ---------------------------------------------------------------------------
// Ordered pairs declared by the precedence orderings

/// The pairs `(list[i], list[j])` for `i < j`, at a fixed `i`, by increasing `j`.
pub open spec fn pairs_from(list: Seq<PrecedenceEntry>, i: int) -> Seq<(PrecedenceEntry, PrecedenceEntry)> {
    Seq::new((list.len() - i - 1) as nat, |k: int| (list[i], list[i + 1 + k]))
}

/// The ordered pairs of `list` whose first element stands before index `n`.
pub open spec fn list_pairs_upto(list: Seq<PrecedenceEntry>, n: int) -> Seq<(PrecedenceEntry, PrecedenceEntry)>
    decreases n,
{
    if n <= 0 {
        Seq::empty()
    } else {
        list_pairs_upto(list, n - 1) + pairs_from(list, n - 1)
    }
}

/// Every pair `(list[i], list[j])` with `i < j`, ordered by `i`, then `j`.
pub open spec fn list_pairs(list: Seq<PrecedenceEntry>) -> Seq<(PrecedenceEntry, PrecedenceEntry)> {
    list_pairs_upto(list, list.len() as int)
}

/// The ordered pairs of the first `n` orderings, one ordering after another.
pub open spec fn ordering_pairs_upto(ords: Seq<Vec<PrecedenceEntry>>, n: int) -> Seq<(PrecedenceEntry, PrecedenceEntry)>
    decreases n,
{
    if n <= 0 {
        Seq::empty()
    } else {
        ordering_pairs_upto(ords, n - 1) + list_pairs(ords[n - 1]@)
    }
}

/// Every ordered pair that the orderings declare, in declaration order.
pub open spec fn ordering_pairs(ords: Seq<Vec<PrecedenceEntry>>) -> Seq<(PrecedenceEntry, PrecedenceEntry)> {
    ordering_pairs_upto(ords, ords.len() as int)
}

/// `q` orders two distinct entries the other way round from `p`.
pub open spec fn reverses(p: (PrecedenceEntry, PrecedenceEntry), q: (PrecedenceEntry, PrecedenceEntry)) -> bool {
    same_entry(p.0, q.1) && same_entry(p.1, q.0) && !same_entry(q.0, q.1)
}

/// The pair at `k` reverses some earlier pair.
pub open spec fn conflict_at(pairs: Seq<(PrecedenceEntry, PrecedenceEntry)>, k: int) -> bool {
    0 <= k < pairs.len() && exists|m: int| 0 <= m < k && #[trigger] reverses(pairs[m], pairs[k])
}

pub open spec fn has_conflict(pairs: Seq<(PrecedenceEntry, PrecedenceEntry)>) -> bool {
    exists|k: int| conflict_at(pairs, k)
}

/// `k` is the first position at which a pair reverses an earlier one.
pub open spec fn first_conflict(pairs: Seq<(PrecedenceEntry, PrecedenceEntry)>, k: int) -> bool {
    conflict_at(pairs, k) && forall|m: int| 0 <= m < k ==> !#[trigger] conflict_at(pairs, m)
}

/// The smaller entry of a pair in the canonical order.
pub open spec fn low(p: (PrecedenceEntry, PrecedenceEntry)) -> PrecedenceEntry {
    if entry_lt(p.1, p.0) { p.1 } else { p.0 }
}

/// The larger entry of a pair in the canonical order.
pub open spec fn high(p: (PrecedenceEntry, PrecedenceEntry)) -> PrecedenceEntry {
    if entry_lt(p.1, p.0) { p.0 } else { p.1 }
}

/// The pairs that the grammar's precedence orderings declare.
pub open spec fn declared_pairs(g: InputGrammar) -> Seq<(PrecedenceEntry, PrecedenceEntry)> {
    ordering_pairs(g.precedence_orderings@)
}

/// The grammar's precedences are consistent: no two orderings disagree and
/// every named precedence in a rule is declared.
pub open spec fn precedences_valid(g: InputGrammar) -> bool {
    !has_conflict(declared_pairs(g))
        && first_undeclared_var(g.variables@, 0, g.precedence_orderings@) is None
}

/// The entries that a sequence of borrowed pairs points to.
pub open spec fn pair_entries(s: Seq<(&PrecedenceEntry, &PrecedenceEntry)>) -> Seq<(PrecedenceEntry, PrecedenceEntry)> {
    s.map_values(|p: (&PrecedenceEntry, &PrecedenceEntry)| (*p.0, *p.1))
}

/// `e` is what validation reports for `g`: where some declared pair
/// reverses an earlier one, the first such pair in the canonical order;
/// otherwise the first undeclared precedence name and the variable using it.
pub open spec fn reports_precedence_error(g: InputGrammar, e: ValidatePrecedenceError) -> bool {
    match e {
        ValidatePrecedenceError::Ordering(o) => exists|k: int|
            first_conflict(declared_pairs(g), k)
                && o.precedence_1@ == entry_text(low(#[trigger] declared_pairs(g)[k]))
                && o.precedence_2@ == entry_text(high(declared_pairs(g)[k])),
        ValidatePrecedenceError::Undeclared(u) => !has_conflict(declared_pairs(g))
            && first_undeclared_var(g.variables@, 0, g.precedence_orderings@)
                == Some((u.precedence@, u.rule@)),
    }
}

fn collect_pairs<'a>(ords: &'a Vec<Vec<PrecedenceEntry>>) -> (r: Vec<(&'a PrecedenceEntry, &'a PrecedenceEntry)>)
    ensures
        pair_entries(r@) == ordering_pairs(ords@),
{
    let mut pairs: Vec<(&'a PrecedenceEntry, &'a PrecedenceEntry)> = Vec::new();
    let mut l: usize = 0;
    while l < ords.len()
        invariant
            l <= ords@.len(),
            pair_entries(pairs@) == ordering_pairs_upto(ords@, l as int),
        decreases ords@.len() - l,
    {
        let list = &ords[l];
        let n = list.len();
        let mut i: usize = 0;
        assert(ordering_pairs_upto(ords@, l as int) + list_pairs_upto(list@, 0) =~= ordering_pairs_upto(ords@, l as int));
        while i < n
            invariant
                l < ords@.len(),
                *list == ords@[l as int],
                n == list@.len(),
                i <= n,
                pair_entries(pairs@) == ordering_pairs_upto(ords@, l as int) + list_pairs_upto(list@, i as int),
            decreases n - i,
        {
            let mut j: usize = i + 1;
            let ghost before = pair_entries(pairs@);
            assert(before + pairs_from(list@, i as int).take(0) =~= before);
            while j < n
                invariant
                    l < ords@.len(),
                    *list == ords@[l as int],
                    n == list@.len(),
                    i < n,
                    i + 1 <= j <= n,
                    before == ordering_pairs_upto(ords@, l as int) + list_pairs_upto(list@, i as int),
                    pair_entries(pairs@) == before + pairs_from(list@, i as int).take(j - i - 1),
                decreases n - j,
            {
                let ghost old_pairs = pairs@;
                pairs.push((&list[i], &list[j]));
                assert(pair_entries(pairs@) =~= pair_entries(old_pairs).push((list@[i as int], list@[j as int])));
                assert(pairs_from(list@, i as int).take(j - i) =~= pairs_from(list@, i as int).take(j - i - 1).push((list@[i as int], list@[j as int])));
                j = j + 1;
            }
            assert(pairs_from(list@, i as int).take(n - i - 1) =~= pairs_from(list@, i as int));
            assert(before + pairs_from(list@, i as int) =~= ordering_pairs_upto(ords@, l as int) + list_pairs_upto(list@, i + 1));
            i = i + 1;
        }
        l = l + 1;
    }
    pairs
}

fn find_conflict<'a>(pairs: &Vec<(&'a PrecedenceEntry, &'a PrecedenceEntry)>) -> (r: Option<usize>)
    ensures
        r matches Some(k) ==> first_conflict(pair_entries(pairs@), k as int),
        r is None ==> !has_conflict(pair_entries(pairs@)),
{
    let mut k: usize = 0;
    while k < pairs.len()
        invariant
            k <= pairs@.len(),
            forall|kk: int| 0 <= kk < k ==> !#[trigger] conflict_at(pair_entries(pairs@), kk),
        decreases pairs@.len() - k,
    {
        let q = pairs[k];
        let mut m: usize = 0;
        while m < k
            invariant
                k < pairs@.len(),
                q == pairs@[k as int],
                m <= k,
                forall|kk: int| 0 <= kk < k ==> !#[trigger] conflict_at(pair_entries(pairs@), kk),
                forall|mm: int| 0 <= mm < m ==> !#[trigger] reverses(pair_entries(pairs@)[mm], pair_entries(pairs@)[k as int]),
            decreases k - m,
        {
            let p = pairs[m];
            if p.0.same_as(q.1) && p.1.same_as(q.0) && !q.0.same_as(q.1) {
                assert(reverses(pair_entries(pairs@)[m as int], pair_entries(pairs@)[k as int]));
                assert(conflict_at(pair_entries(pairs@), k as int));
                return Some(k);
            }
            m = m + 1;
        }
        k = k + 1;
    }
    None
}

/// Checks that every named precedence used in the grammar's rules is declared
/// in one of its precedence orderings, and that no two orderings put the same
/// two precedences in opposite orders.
///
/// Disagreeing orderings are reported first: the first declared pair that
/// reverses an earlier one, named in the canonical order. Otherwise the first
/// undeclared name, in variable order and then in rule pre-order, is reported
/// with the variable that uses it.
pub fn validate_precedences(grammar: &InputGrammar) -> (r: ValidatePrecedenceResult<()>)
    ensures
        r is Ok <==> precedences_valid(*grammar),
        r matches Err(e) ==> reports_precedence_error(*grammar, e),
{
    let pairs = collect_pairs(&grammar.precedence_orderings);
    if let Some(k) = find_conflict(&pairs) {
        let (a, b) = pairs[k];
        let (first, second) = if b.precedes(a) { (b, a) } else { (a, b) };
        return Err(ValidatePrecedenceError::Ordering(ConflictingPrecedenceOrderingError {
            precedence_1: first.to_text(),
            precedence_2: second.to_text(),
        }));
    }
    let vars = &grammar.variables;
    let mut i: usize = 0;
    while i < vars.len()
        invariant
            *vars == grammar.variables,
            !has_conflict(declared_pairs(*grammar)),
            i <= vars@.len(),
            first_undeclared_var(vars@, 0, grammar.precedence_orderings@)
                == first_undeclared_var(vars@, i as int, grammar.precedence_orderings@),
        decreases vars@.len() - i,
    {
        let v = &vars[i];
        if let Some(n) = undeclared_in(&v.rule, &grammar.precedence_orderings) {
            return Err(ValidatePrecedenceError::Undeclared(UndeclaredPrecedenceError {
                precedence: n.clone(),
                rule: v.name.clone(),
            }));
        }
        i = i + 1;
    }
    Ok(())
}

/// Prepares an input grammar: validates its precedences, then resolves every
/// name in it to a symbol. The first failing stage's error is returned.
pub fn prepare_grammar(input_grammar: &InputGrammar) -> (r: PrepareGrammarResult<InternedGrammar>)
    ensures
        r is Ok <==> precedences_valid(*input_grammar) && first_undefined_in_grammar(*input_grammar) is None,
        r matches Ok(ig) ==> interned_grammar(*input_grammar, ig),
        r matches Err(PrepareGrammarError::ValidatePrecedences(e)) ==> !precedences_valid(*input_grammar)
            && reports_precedence_error(*input_grammar, e),
        r matches Err(PrepareGrammarError::InternSymbols(InternSymbolsError::Undefined(n))) ==>
            precedences_valid(*input_grammar) && first_undefined_in_grammar(*input_grammar) == Some(n@),
{
    match validate_precedences(input_grammar) {
        Ok(()) => {},
        Err(e) => return Err(PrepareGrammarError::ValidatePrecedences(e)),
    }
    match intern_symbols(input_grammar) {
        Ok(ig) => Ok(ig),
        Err(e) => Err(PrepareGrammarError::InternSymbols(e)),
    }
}

} // verus!
