use vstd::prelude::*;
use vstd::string::*;
use crate::grammars::{InputGrammar, PrecedenceEntry, ReservedWordContext, Variable, VariableType};
use crate::prepare_grammar::{IntermediateGrammar, InternedGrammar};
use crate::rules::{Rule, Symbol, SymbolType};

verus! {

broadcast use vstd::std_specs::vec::group_vec_axioms;

/// A rule or a declaration names a symbol that the grammar does not define.
pub enum InternSymbolsError {
    Undefined(String),
}

impl InternSymbolsError {
    /// The message shown to the grammar author.
    pub fn message(&self) -> (r: String)
        ensures
            self matches InternSymbolsError::Undefined(n) ==> r@ == "Undefined symbol `"@ + n@ + "`"@,
    {
        match self {
            InternSymbolsError::Undefined(n) => {
                let mut s = String::from_str("Undefined symbol `");
                s.append(n.as_str());
                s.append("`");
                s
            },
        }
    }
}

/// The index of the first variable of `vars[i..]` called `name`.
pub open spec fn variable_index(vars: Seq<Variable>, name: Seq<char>, i: int) -> Option<int>
    decreases vars.len() - i,
{
    if 0 <= i < vars.len() {
        if vars[i].name@ == name {
            Some(i)
        } else {
            variable_index(vars, name, i + 1)
        }
    } else {
        None
    }
}

/// The index of the first external token of `exts[i..]` called `name`.
pub open spec fn external_index(exts: Seq<Rule>, name: Seq<char>, i: int) -> Option<int>
    decreases exts.len() - i,
{
    if 0 <= i < exts.len() {
        if exts[i] matches Rule::NamedSymbol(n) && n@ == name {
            Some(i)
        } else {
            external_index(exts, name, i + 1)
        }
    } else {
        None
    }
}

/// The symbol that `name` resolves to: the first variable of that name, or
/// else the first external token of that name.
pub open spec fn symbol_named(g: InputGrammar, name: Seq<char>) -> Option<Symbol> {
    match variable_index(g.variables@, name, 0) {
        Some(i) => Some(Symbol { kind: SymbolType::NonTerminal, index: i as usize }),
        None => match external_index(g.external_tokens@, name, 0) {
            Some(j) => Some(Symbol { kind: SymbolType::External, index: j as usize }),
            None => None,
        },
    }
}

/// The first name in `rule`, in pre-order, that resolves to no symbol.
pub open spec fn first_undefined(rule: Rule, g: InputGrammar) -> Option<Seq<char>>
    decreases rule, 0int,
{
    match rule {
        Rule::NamedSymbol(n) => if symbol_named(g, n@) is None {
            Some(n@)
        } else {
            None
        },
        Rule::Repeat(inner) => first_undefined(*inner, g),
        Rule::Sequence(v) => first_undefined_among(v, 0, g),
        Rule::Choice(v) => first_undefined_among(v, 0, g),
        Rule::Metadata { params, rule: inner } => first_undefined(*inner, g),
        _ => None,
    }
}

/// The first name in `v[i..]` that resolves to no symbol.
pub open spec fn first_undefined_among(v: Vec<Rule>, i: int, g: InputGrammar) -> Option<Seq<char>>
    decreases v, v@.len() - i,
{
    if 0 <= i < v@.len() {
        match first_undefined(v[i], g) {
            Some(n) => Some(n),
            None => first_undefined_among(v, i + 1, g),
        }
    } else {
        None
    }
}

/// `new` is `orig` with every name replaced by the symbol it resolves to.
pub open spec fn interned_as(orig: Rule, new: Rule, g: InputGrammar) -> bool
    decreases orig, 0int,
{
    match orig {
        Rule::NamedSymbol(n) => new matches Rule::Symbol(s) && symbol_named(g, n@) == Some(s),
        Rule::Repeat(a) => new matches Rule::Repeat(b) && interned_as(*a, *b, g),
        Rule::Sequence(v) => new matches Rule::Sequence(w) && interned_among(v, w, 0, g),
        Rule::Choice(v) => new matches Rule::Choice(w) && interned_among(v, w, 0, g),
        Rule::Metadata { params, rule: a } => new matches Rule::Metadata { params: q, rule: b }
            && q == params && interned_as(*a, *b, g),
        _ => new == orig,
    }
}

/// `w` is `v` with each rule from index `i` on interned.
pub open spec fn interned_among(v: Vec<Rule>, w: Vec<Rule>, i: int, g: InputGrammar) -> bool
    decreases v, v@.len() - i,
{
    &&& v@.len() == w@.len()
    &&& 0 <= i < v@.len() ==> interned_as(v[i], w[i], g) && interned_among(v, w, i + 1, g)
}

proof fn lemma_interned_among(v: Vec<Rule>, w: Vec<Rule>, i: int, g: InputGrammar)
    requires
        0 <= i,
        v@.len() == w@.len(),
        forall|k: int| i <= k < v@.len() ==> interned_as(#[trigger] v[k], w[k], g),
    ensures
        interned_among(v, w, i, g),
    decreases v@.len() - i,
{
    if i < v@.len() {
        lemma_interned_among(v, w, i + 1, g);
    }
}

fn find_symbol(g: &InputGrammar, name: &String) -> (r: Option<Symbol>)
    ensures
        r == symbol_named(*g, name@),
{
    let mut i: usize = 0;
    while i < g.variables.len()
        invariant
            i <= g.variables@.len(),
            variable_index(g.variables@, name@, 0) == variable_index(g.variables@, name@, i as int),
        decreases g.variables@.len() - i,
    {
        if g.variables[i].name == *name {
            return Some(Symbol { kind: SymbolType::NonTerminal, index: i });
        }
        i = i + 1;
    }
    let mut j: usize = 0;
    while j < g.external_tokens.len()
        invariant
            j <= g.external_tokens@.len(),
            variable_index(g.variables@, name@, 0) is None,
            external_index(g.external_tokens@, name@, 0) == external_index(g.external_tokens@, name@, j as int),
        decreases g.external_tokens@.len() - j,
    {
        if let Rule::NamedSymbol(n) = &g.external_tokens[j] {
            if *n == *name {
                return Some(Symbol { kind: SymbolType::External, index: j });
            }
        }
        j = j + 1;
    }
    None
}

fn intern_rule(rule: &Rule, g: &InputGrammar) -> (r: Result<Rule, String>)
    ensures
        r matches Ok(new) ==> first_undefined(*rule, *g) is None && interned_as(*rule, new, *g),
        r matches Err(n) ==> first_undefined(*rule, *g) == Some(n@),
    decreases rule,
{
    match rule {
        Rule::NamedSymbol(n) => match find_symbol(g, n) {
            Some(s) => Ok(Rule::Symbol(s)),
            None => Err(n.clone()),
        },
        Rule::Repeat(inner) => {
            let new = intern_rule(inner, g)?;
            Ok(Rule::Repeat(Box::new(new)))
        },
        Rule::Sequence(v) => {
            let w = intern_rules(v, g)?;
            Ok(Rule::Sequence(w))
        },
        Rule::Choice(v) => {
            let w = intern_rules(v, g)?;
            Ok(Rule::Choice(w))
        },
        Rule::Metadata { params, rule: inner } => {
            let new = intern_rule(inner, g)?;
            Ok(Rule::Metadata { params: params.copy(), rule: Box::new(new) })
        },
        Rule::Blank => Ok(Rule::Blank),
        Rule::String(s) => Ok(Rule::String(s.clone())),
        Rule::Pattern(p, f) => Ok(Rule::Pattern(p.clone(), f.clone())),
        Rule::Symbol(s) => Ok(Rule::Symbol(*s)),
    }
}

fn intern_rules(v: &Vec<Rule>, g: &InputGrammar) -> (r: Result<Vec<Rule>, String>)
    ensures
        r matches Ok(w) ==> first_undefined_among(*v, 0, *g) is None && interned_among(*v, w, 0, *g),
        r matches Err(n) ==> first_undefined_among(*v, 0, *g) == Some(n@),
    decreases v, 1int,
{
    let mut w: Vec<Rule> = Vec::new();
    let mut i: usize = 0;
    while i < v.len()
        invariant
            i <= v@.len(),
            w@.len() == i,
            forall|k: int| 0 <= k < i ==> interned_as(#[trigger] v[k], w[k], *g),
            first_undefined_among(*v, 0, *g) == first_undefined_among(*v, i as int, *g),
        decreases v@.len() - i,
    {
        let new = intern_rule(&v[i], g)?;
        w.push(new);
        i = i + 1;
    }
    proof {
        lemma_interned_among(*v, w, 0, *g);
    }
    Ok(w)
}

/// The first of two outcomes that reports a name.
pub open spec fn either(a: Option<Seq<char>>, b: Option<Seq<char>>) -> Option<Seq<char>> {
    if a is Some { a } else { b }
}

/// The first name in the rules of `vars[i..]` that resolves to no symbol.
pub open spec fn first_undefined_var(vars: Seq<Variable>, i: int, g: InputGrammar) -> Option<Seq<char>>
    decreases vars.len() - i,
{
    if 0 <= i < vars.len() {
        either(first_undefined(vars[i].rule, g), first_undefined_var(vars, i + 1, g))
    } else {
        None
    }
}

/// The first of `names[i..]` that resolves to no symbol.
pub open spec fn first_unresolved(names: Seq<String>, i: int, g: InputGrammar) -> Option<Seq<char>>
    decreases names.len() - i,
{
    if 0 <= i < names.len() {
        if symbol_named(g, names[i]@) is None {
            Some(names[i]@)
        } else {
            first_unresolved(names, i + 1, g)
        }
    } else {
        None
    }
}

/// The first name of the sets `sets[i..]` that resolves to no symbol.
pub open spec fn first_unresolved_set(sets: Seq<Vec<String>>, i: int, g: InputGrammar) -> Option<Seq<char>>
    decreases sets.len() - i,
{
    if 0 <= i < sets.len() {
        either(first_unresolved(sets[i]@, 0, g), first_unresolved_set(sets, i + 1, g))
    } else {
        None
    }
}

/// The first name in the reserved words of the sets `sets[i..]` that
/// resolves to no symbol.
pub open spec fn first_undefined_reserved(sets: Seq<ReservedWordContext<Rule>>, i: int, g: InputGrammar) -> Option<Seq<char>>
    decreases sets.len() - i,
{
    if 0 <= i < sets.len() {
        either(first_undefined_among(sets[i].reserved_words, 0, g), first_undefined_reserved(sets, i + 1, g))
    } else {
        None
    }
}

/// The first name of the grammar that resolves to no symbol: in the rules of
/// the variables, then of the external tokens, then of the extra symbols,
/// then among the supertypes, the expected conflicts, the variables to
/// inline and the word token, and last in the reserved words.
pub open spec fn first_undefined_in_grammar(g: InputGrammar) -> Option<Seq<char>> {
    either(first_undefined_var(g.variables@, 0, g),
    either(first_undefined_among(g.external_tokens, 0, g),
    either(first_undefined_among(g.extra_symbols, 0, g),
    either(first_unresolved(g.supertype_symbols@, 0, g),
    either(first_unresolved_set(g.expected_conflicts@, 0, g),
    either(first_unresolved(g.variables_to_inline@, 0, g),
    either(match g.word_token {
        Some(w) => if symbol_named(g, w@) is None { Some(w@) } else { None },
        None => None,
    },
    first_undefined_reserved(g.reserved_words@, 0, g))))))))
}

/// `syms` holds the symbols that `names` resolve to.
pub open spec fn resolved_as(names: Seq<String>, syms: Seq<Symbol>, g: InputGrammar) -> bool {
    names.len() == syms.len()
        && forall|k: int| 0 <= k < names.len() ==> symbol_named(g, #[trigger] names[k]@) == Some(syms[k])
}

/// The variable that an external token of the input becomes.
pub open spec fn external_variable(ext: Rule, var: Variable, g: InputGrammar) -> bool {
    &&& interned_as(ext, var.rule, g)
    &&& ext matches Rule::NamedSymbol(n) ==> var.name@ == n@ && var.kind == VariableType::Named
    &&& !(ext is NamedSymbol) ==> var.name@.len() == 0 && var.kind == VariableType::Anonymous
}

/// `r` is `g` with every name resolved.
pub open spec fn interned_grammar(g: InputGrammar, r: InternedGrammar) -> bool {
    &&& r.variables@.len() == g.variables@.len()
    &&& forall|i: int| 0 <= i < g.variables@.len() ==> {
        &&& (#[trigger] r.variables@[i]).name@ == g.variables@[i].name@
        &&& r.variables@[i].kind == g.variables@[i].kind
        &&& interned_as(g.variables@[i].rule, r.variables@[i].rule, g)
    }
    &&& r.external_tokens@.len() == g.external_tokens@.len()
    &&& forall|j: int| 0 <= j < g.external_tokens@.len()
        ==> external_variable(g.external_tokens@[j], #[trigger] r.external_tokens@[j], g)
    &&& interned_among(g.extra_symbols, r.extra_symbols, 0, g)
    &&& resolved_as(g.supertype_symbols@, r.supertype_symbols@, g)
    &&& r.expected_conflicts@.len() == g.expected_conflicts@.len()
    &&& forall|c: int| 0 <= c < g.expected_conflicts@.len()
        ==> resolved_as(g.expected_conflicts@[c]@, #[trigger] r.expected_conflicts@[c]@, g)
    &&& resolved_as(g.variables_to_inline@, r.variables_to_inline@, g)
    &&& match g.word_token {
        Some(w) => r.word_token == symbol_named(g, w@),
        None => r.word_token is None,
    }
    &&& r.precedence_orderings@.len() == g.precedence_orderings@.len()
    &&& forall|l: int| 0 <= l < g.precedence_orderings@.len()
        ==> (#[trigger] r.precedence_orderings@[l])@ == g.precedence_orderings@[l]@
    &&& reserved_interned(g.reserved_words@, r.reserved_word_sets@, g)
}

/// `out` holds the sets `sets`, each with its name kept and its reserved
/// words interned.
pub open spec fn reserved_interned(sets: Seq<ReservedWordContext<Rule>>, out: Seq<ReservedWordContext<Rule>>, g: InputGrammar) -> bool {
    &&& out.len() == sets.len()
    &&& forall|c: int| 0 <= c < sets.len() ==> {
        &&& (#[trigger] out[c]).name@ == sets[c].name@
        &&& interned_among(sets[c].reserved_words, out[c].reserved_words, 0, g)
    }
}

fn intern_variables(g: &InputGrammar) -> (r: Result<Vec<Variable>, String>)
    ensures
        r matches Ok(vars) ==> first_undefined_var(g.variables@, 0, *g) is None
            && vars@.len() == g.variables@.len()
            && forall|i: int| 0 <= i < g.variables@.len() ==> {
                &&& (#[trigger] vars@[i]).name@ == g.variables@[i].name@
                &&& vars@[i].kind == g.variables@[i].kind
                &&& interned_as(g.variables@[i].rule, vars@[i].rule, *g)
            },
        r matches Err(n) ==> first_undefined_var(g.variables@, 0, *g) == Some(n@),
{
    let mut vars: Vec<Variable> = Vec::new();
    let mut i: usize = 0;
    while i < g.variables.len()
        invariant
            i <= g.variables@.len(),
            vars@.len() == i,
            forall|k: int| 0 <= k < i ==> {
                &&& (#[trigger] vars@[k]).name@ == g.variables@[k].name@
                &&& vars@[k].kind == g.variables@[k].kind
                &&& interned_as(g.variables@[k].rule, vars@[k].rule, *g)
            },
            first_undefined_var(g.variables@, 0, *g) == first_undefined_var(g.variables@, i as int, *g),
        decreases g.variables@.len() - i,
    {
        let v = &g.variables[i];
        let rule = intern_rule(&v.rule, g)?;
        vars.push(Variable { name: v.name.clone(), kind: v.kind, rule });
        i = i + 1;
    }
    Ok(vars)
}

fn intern_externals(g: &InputGrammar) -> (r: Result<Vec<Variable>, String>)
    ensures
        r matches Ok(vars) ==> first_undefined_among(g.external_tokens, 0, *g) is None
            && vars@.len() == g.external_tokens@.len()
            && forall|j: int| 0 <= j < g.external_tokens@.len()
                ==> external_variable(g.external_tokens@[j], #[trigger] vars@[j], *g),
        r matches Err(n) ==> first_undefined_among(g.external_tokens, 0, *g) == Some(n@),
{
    let mut vars: Vec<Variable> = Vec::new();
    let mut j: usize = 0;
    while j < g.external_tokens.len()
        invariant
            j <= g.external_tokens@.len(),
            vars@.len() == j,
            forall|k: int| 0 <= k < j ==> external_variable(g.external_tokens@[k], #[trigger] vars@[k], *g),
            first_undefined_among(g.external_tokens, 0, *g) == first_undefined_among(g.external_tokens, j as int, *g),
        decreases g.external_tokens@.len() - j,
    {
        let ext = &g.external_tokens[j];
        let rule = intern_rule(ext, g)?;
        let (name, kind) = match ext {
            Rule::NamedSymbol(n) => (n.clone(), VariableType::Named),
            _ => (String::new(), VariableType::Anonymous),
        };
        vars.push(Variable { name, kind, rule });
        j = j + 1;
    }
    Ok(vars)
}

fn resolve_names(names: &Vec<String>, g: &InputGrammar) -> (r: Result<Vec<Symbol>, String>)
    ensures
        r matches Ok(syms) ==> first_unresolved(names@, 0, *g) is None && resolved_as(names@, syms@, *g),
        r matches Err(n) ==> first_unresolved(names@, 0, *g) == Some(n@),
{
    let mut syms: Vec<Symbol> = Vec::new();
    let mut i: usize = 0;
    while i < names.len()
        invariant
            i <= names@.len(),
            syms@.len() == i,
            forall|k: int| 0 <= k < i ==> symbol_named(*g, #[trigger] names@[k]@) == Some(syms@[k]),
            first_unresolved(names@, 0, *g) == first_unresolved(names@, i as int, *g),
        decreases names@.len() - i,
    {
        match find_symbol(g, &names[i]) {
            Some(s) => syms.push(s),
            None => return Err(names[i].clone()),
        }
        i = i + 1;
    }
    Ok(syms)
}

fn resolve_sets(sets: &Vec<Vec<String>>, g: &InputGrammar) -> (r: Result<Vec<Vec<Symbol>>, String>)
    ensures
        r matches Ok(out) ==> first_unresolved_set(sets@, 0, *g) is None && out@.len() == sets@.len()
            && forall|c: int| 0 <= c < sets@.len() ==> resolved_as(sets@[c]@, #[trigger] out@[c]@, *g),
        r matches Err(n) ==> first_unresolved_set(sets@, 0, *g) == Some(n@),
{
    let mut out: Vec<Vec<Symbol>> = Vec::new();
    let mut i: usize = 0;
    while i < sets.len()
        invariant
            i <= sets@.len(),
            out@.len() == i,
            forall|c: int| 0 <= c < i ==> resolved_as(sets@[c]@, #[trigger] out@[c]@, *g),
            first_unresolved_set(sets@, 0, *g) == first_unresolved_set(sets@, i as int, *g),
        decreases sets@.len() - i,
    {
        let syms = resolve_names(&sets[i], g)?;
        out.push(syms);
        i = i + 1;
    }
    Ok(out)
}

fn intern_reserved(g: &InputGrammar) -> (r: Result<Vec<ReservedWordContext<Rule>>, String>)
    ensures
        r matches Ok(out) ==> first_undefined_reserved(g.reserved_words@, 0, *g) is None
            && reserved_interned(g.reserved_words@, out@, *g),
        r matches Err(n) ==> first_undefined_reserved(g.reserved_words@, 0, *g) == Some(n@),
{
    let mut out: Vec<ReservedWordContext<Rule>> = Vec::new();
    let mut i: usize = 0;
    while i < g.reserved_words.len()
        invariant
            i <= g.reserved_words@.len(),
            out@.len() == i,
            forall|c: int| 0 <= c < i ==> {
                &&& (#[trigger] out@[c]).name@ == g.reserved_words@[c].name@
                &&& interned_among(g.reserved_words@[c].reserved_words, out@[c].reserved_words, 0, *g)
            },
            first_undefined_reserved(g.reserved_words@, 0, *g) == first_undefined_reserved(g.reserved_words@, i as int, *g),
        decreases g.reserved_words@.len() - i,
    {
        let set = &g.reserved_words[i];
        let reserved_words = intern_rules(&set.reserved_words, g)?;
        out.push(ReservedWordContext { name: set.name.clone(), reserved_words });
        i = i + 1;
    }
    Ok(out)
}

fn copy_orderings(ords: &Vec<Vec<PrecedenceEntry>>) -> (r: Vec<Vec<PrecedenceEntry>>)
    ensures
        r@.len() == ords@.len(),
        forall|l: int| 0 <= l < ords@.len() ==> (#[trigger] r@[l])@ == ords@[l]@,
{
    let mut out: Vec<Vec<PrecedenceEntry>> = Vec::new();
    let mut l: usize = 0;
    while l < ords.len()
        invariant
            l <= ords@.len(),
            out@.len() == l,
            forall|k: int| 0 <= k < l ==> (#[trigger] out@[k])@ == ords@[k]@,
        decreases ords@.len() - l,
    {
        let list = &ords[l];
        let mut copy: Vec<PrecedenceEntry> = Vec::new();
        let mut i: usize = 0;
        while i < list.len()
            invariant
                i <= list@.len(),
                copy@ == list@.take(i as int),
            decreases list@.len() - i,
        {
            copy.push(list[i].copy());
            assert(list@.take(i + 1) =~= list@.take(i as int).push(list@[i as int]));
            i = i + 1;
        }
        assert(list@.take(list@.len() as int) =~= list@);
        out.push(copy);
        l = l + 1;
    }
    out
}

fn intern_all(g: &InputGrammar) -> (r: Result<InternedGrammar, String>)
    ensures
        r matches Ok(ig) ==> first_undefined_in_grammar(*g) is None && interned_grammar(*g, ig),
        r matches Err(n) ==> first_undefined_in_grammar(*g) == Some(n@),
{
    let variables = intern_variables(g)?;
    let external_tokens = intern_externals(g)?;
    let extra_symbols = intern_rules(&g.extra_symbols, g)?;
    let supertype_symbols = resolve_names(&g.supertype_symbols, g)?;
    let expected_conflicts = resolve_sets(&g.expected_conflicts, g)?;
    let variables_to_inline = resolve_names(&g.variables_to_inline, g)?;
    let word_token = match &g.word_token {
        Some(w) => match find_symbol(g, w) {
            Some(s) => Some(s),
            None => return Err(w.clone()),
        },
        None => None,
    };
    let reserved_word_sets = intern_reserved(g)?;
    Ok(IntermediateGrammar {
        variables,
        extra_symbols,
        expected_conflicts,
        precedence_orderings: copy_orderings(&g.precedence_orderings),
        external_tokens,
        variables_to_inline,
        supertype_symbols,
        word_token,
        reserved_word_sets,
    })
}

/// Resolves every name in the grammar to a symbol: a variable's name to a
/// non-terminal with that variable's index, else an external token's name to
/// an external symbol with that token's index. Fails on the first name that
/// resolves to neither.
pub fn intern_symbols(grammar: &InputGrammar) -> (r: Result<InternedGrammar, InternSymbolsError>)
    ensures
        r is Ok <==> first_undefined_in_grammar(*grammar) is None,
        r matches Ok(ig) ==> interned_grammar(*grammar, ig),
        r matches Err(InternSymbolsError::Undefined(n)) ==> first_undefined_in_grammar(*grammar) == Some(n@),
{
    match intern_all(grammar) {
        Ok(ig) => Ok(ig),
        Err(n) => Err(InternSymbolsError::Undefined(n)),
    }
}

} // verus!
