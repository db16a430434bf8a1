use vstd::prelude::*;
use crate::grammars::{
    chars_lt, entry_lt, entry_text, same_entry, InputGrammar, PrecedenceEntry, Variable,
};
use crate::prepare_grammar::{
    conflict_at, declared, declared_pairs, first_conflict, first_undeclared, first_undeclared_among,
    first_undeclared_var, has_conflict, high, list_pairs, list_pairs_upto, low,
    ordering_pairs_upto, pairs_from, precedences_valid, reports_precedence_error, reverses,
    InternedGrammar, ValidatePrecedenceError,
};
use crate::intern_symbols::{
    external_index, external_variable, interned_among, interned_as, interned_grammar, resolved_as,
    symbol_named, variable_index,
};
use crate::rules::{Precedence, Rule, Symbol, SymbolType};

verus! {

broadcast use vstd::std_specs::vec::group_vec_axioms;

/// `rule` carries the named precedence `name` somewhere in its tree.
pub open spec fn uses_precedence(rule: Rule, name: Seq<char>) -> bool
    decreases rule, 0int,
{
    match rule {
        Rule::Repeat(inner) => uses_precedence(*inner, name),
        Rule::Sequence(v) => uses_precedence_among(v, 0, name),
        Rule::Choice(v) => uses_precedence_among(v, 0, name),
        Rule::Metadata { params, rule: inner } => (params.precedence matches Precedence::Name(n)
            && n@ == name) || uses_precedence(*inner, name),
        _ => false,
    }
}

/// Some rule of `v[i..]` carries the named precedence `name`.
pub open spec fn uses_precedence_among(v: Vec<Rule>, i: int, name: Seq<char>) -> bool
    decreases v, v@.len() - i,
{
    if 0 <= i < v@.len() {
        uses_precedence(v[i], name) || uses_precedence_among(v, i + 1, name)
    } else {
        false
    }
}

/// Every named precedence that some rule of the grammar uses is declared.
pub open spec fn all_used_declared(g: InputGrammar) -> bool {
    forall|i: int, n: Seq<char>|
        0 <= i < g.variables@.len() && #[trigger] uses_precedence(g.variables@[i].rule, n)
            ==> declared(g.precedence_orderings@, n)
}

/// No declared pair is reversed by any other declared pair.
pub open spec fn orderings_agree(g: InputGrammar) -> bool {
    forall|m: int, k: int|
        0 <= m < declared_pairs(g).len() && 0 <= k < declared_pairs(g).len()
            ==> !#[trigger] reverses(declared_pairs(g)[m], declared_pairs(g)[k])
}

proof fn lemma_rule_declared(rule: Rule, ords: Seq<Vec<PrecedenceEntry>>)
    requires
        forall|n: Seq<char>| #[trigger] uses_precedence(rule, n) ==> declared(ords, n),
    ensures
        first_undeclared(rule, ords) is None,
    decreases rule, 0int,
{
    match rule {
        Rule::Repeat(inner) => {
            assert forall|n: Seq<char>| #[trigger] uses_precedence(*inner, n) implies declared(ords, n) by {
                assert(uses_precedence(rule, n));
            }
            lemma_rule_declared(*inner, ords);
        },
        Rule::Sequence(v) => {
            assert forall|n: Seq<char>| #[trigger] uses_precedence_among(v, 0, n) implies declared(ords, n) by {
                assert(uses_precedence(rule, n));
            }
            lemma_rules_declared(v, 0, ords);
        },
        Rule::Choice(v) => {
            assert forall|n: Seq<char>| #[trigger] uses_precedence_among(v, 0, n) implies declared(ords, n) by {
                assert(uses_precedence(rule, n));
            }
            lemma_rules_declared(v, 0, ords);
        },
        Rule::Metadata { params, rule: inner } => {
            if let Precedence::Name(n) = params.precedence {
                assert(uses_precedence(rule, n@));
            }
            assert forall|n: Seq<char>| #[trigger] uses_precedence(*inner, n) implies declared(ords, n) by {
                assert(uses_precedence(rule, n));
            }
            lemma_rule_declared(*inner, ords);
        },
        _ => {},
    }
}

proof fn lemma_rules_declared(v: Vec<Rule>, i: int, ords: Seq<Vec<PrecedenceEntry>>)
    requires
        forall|n: Seq<char>| #[trigger] uses_precedence_among(v, i, n) ==> declared(ords, n),
    ensures
        first_undeclared_among(v, i, ords) is None,
    decreases v, v@.len() - i,
{
    if 0 <= i < v@.len() {
        assert forall|n: Seq<char>| #[trigger] uses_precedence(v[i], n) implies declared(ords, n) by {
            assert(uses_precedence_among(v, i, n));
        }
        lemma_rule_declared(v[i], ords);
        assert forall|n: Seq<char>| #[trigger] uses_precedence_among(v, i + 1, n) implies declared(ords, n) by {
            assert(uses_precedence_among(v, i, n));
        }
        lemma_rules_declared(v, i + 1, ords);
    }
}

proof fn lemma_vars_declared(g: InputGrammar, i: int)
    requires
        all_used_declared(g),
        0 <= i,
    ensures
        first_undeclared_var(g.variables@, i, g.precedence_orderings@) is None,
    decreases g.variables@.len() - i,
{
    if i < g.variables@.len() {
        assert forall|n: Seq<char>| #[trigger] uses_precedence(g.variables@[i].rule, n)
            implies declared(g.precedence_orderings@, n) by {}
        lemma_rule_declared(g.variables@[i].rule, g.precedence_orderings@);
        lemma_vars_declared(g, i + 1);
    }
}

/// A grammar whose rules use only declared precedence names, and whose
/// orderings never put two precedences in opposite orders, passes
/// precedence validation.
pub proof fn lemma_declared_and_agreeing_is_valid(g: InputGrammar)
    requires
        all_used_declared(g),
        orderings_agree(g),
    ensures
        precedences_valid(g),
{
    lemma_vars_declared(g, 0);
    if has_conflict(declared_pairs(g)) {
        let k = choose|k: int| conflict_at(declared_pairs(g), k);
        let m = choose|m: int| 0 <= m < k && #[trigger] reverses(declared_pairs(g)[m], declared_pairs(g)[k]);
        assert(!reverses(declared_pairs(g)[m], declared_pairs(g)[k]));
    }
}

proof fn lemma_list_pair_at(list: Seq<PrecedenceEntry>, i: int, j: int, n: int)
    requires
        0 <= i < j < list.len(),
        i < n <= list.len(),
    ensures
        exists|x: int| 0 <= x < list_pairs_upto(list, n).len()
            && #[trigger] list_pairs_upto(list, n)[x] == (list[i], list[j]),
    decreases n,
{
    if n == i + 1 {
        let x = list_pairs_upto(list, i).len() + (j - i - 1);
        assert(list_pairs_upto(list, n)[x] == pairs_from(list, i)[j - i - 1]);
    } else {
        lemma_list_pair_at(list, i, j, n - 1);
        let x = choose|x: int| 0 <= x < list_pairs_upto(list, n - 1).len()
            && #[trigger] list_pairs_upto(list, n - 1)[x] == (list[i], list[j]);
        assert(list_pairs_upto(list, n)[x] == list_pairs_upto(list, n - 1)[x]);
    }
}

proof fn lemma_ordering_pair_at(ords: Seq<Vec<PrecedenceEntry>>, l: int, i: int, j: int, n: int)
    requires
        0 <= l < n <= ords.len(),
        0 <= i < j < ords[l]@.len(),
    ensures
        exists|x: int| 0 <= x < ordering_pairs_upto(ords, n).len()
            && #[trigger] ordering_pairs_upto(ords, n)[x] == (ords[l]@[i], ords[l]@[j]),
    decreases n,
{
    if n == l + 1 {
        lemma_list_pair_at(ords[l]@, i, j, ords[l]@.len() as int);
        let y = choose|y: int| 0 <= y < list_pairs(ords[l]@).len()
            && #[trigger] list_pairs(ords[l]@)[y] == (ords[l]@[i], ords[l]@[j]);
        let x = ordering_pairs_upto(ords, l).len() + y;
        assert(ordering_pairs_upto(ords, n)[x] == list_pairs(ords[l]@)[y]);
    } else {
        lemma_ordering_pair_at(ords, l, i, j, n - 1);
        let x = choose|x: int| 0 <= x < ordering_pairs_upto(ords, n - 1).len()
            && #[trigger] ordering_pairs_upto(ords, n - 1)[x] == (ords[l]@[i], ords[l]@[j]);
        assert(ordering_pairs_upto(ords, n)[x] == ordering_pairs_upto(ords, n - 1)[x]);
    }
}

proof fn lemma_first_conflict_exists(pairs: Seq<(PrecedenceEntry, PrecedenceEntry)>, k: int)
    requires
        conflict_at(pairs, k),
    ensures
        exists|f: int| first_conflict(pairs, f),
    decreases k,
{
    if exists|m: int| 0 <= m < k && #[trigger] conflict_at(pairs, m) {
        let m = choose|m: int| 0 <= m < k && #[trigger] conflict_at(pairs, m);
        lemma_first_conflict_exists(pairs, m);
    } else {
        assert(first_conflict(pairs, k));
    }
}

proof fn lemma_chars_lt_total(x: Seq<char>, y: Seq<char>)
    requires
        x != y,
    ensures
        chars_lt(x, y) != chars_lt(y, x),
    decreases x.len(),
{
    if x.len() == 0 {
        if y.len() == 0 {
            assert(x =~= y);
        }
    } else if y.len() == 0 {
    } else if x[0] != y[0] {
    } else {
        if x.drop_first() == y.drop_first() {
            assert(x =~= y) by {
                assert(x.len() == x.drop_first().len() + 1);
                assert(y.len() == y.drop_first().len() + 1);
                assert forall|t: int| 0 <= t < x.len() implies x[t] == y[t] by {
                    if t > 0 {
                        assert(x[t] == x.drop_first()[t - 1]);
                        assert(y[t] == y.drop_first()[t - 1]);
                    }
                }
            }
        }
        lemma_chars_lt_total(x.drop_first(), y.drop_first());
    }
}

proof fn lemma_entry_lt_total(a: PrecedenceEntry, b: PrecedenceEntry)
    requires
        !same_entry(a, b),
    ensures
        entry_lt(a, b) != entry_lt(b, a),
{
    if let (PrecedenceEntry::Name(x), PrecedenceEntry::Name(y)) = (a, b) {
        lemma_chars_lt_total(x@, y@);
    }
}

/// Where one ordering puts `a` before `b` and another puts `b` before `a`,
/// validation reports conflicting orderings; when `a` and `b` are the only
/// two precedences ordered both ways, the error names them in the canonical
/// order, whichever of the two orderings comes first.
pub proof fn lemma_opposite_orders_conflict(g: InputGrammar, l1: int, i1: int, j1: int, l2: int, i2: int, j2: int)
    requires
        0 <= l1 < g.precedence_orderings@.len(),
        0 <= l2 < g.precedence_orderings@.len(),
        0 <= i1 < j1 < g.precedence_orderings@[l1]@.len(),
        0 <= i2 < j2 < g.precedence_orderings@[l2]@.len(),
        same_entry(g.precedence_orderings@[l1]@[i1], g.precedence_orderings@[l2]@[j2]),
        same_entry(g.precedence_orderings@[l1]@[j1], g.precedence_orderings@[l2]@[i2]),
        !same_entry(g.precedence_orderings@[l1]@[i1], g.precedence_orderings@[l1]@[j1]),
    ensures
        has_conflict(declared_pairs(g)),
        !precedences_valid(g),
        ({
            let a = g.precedence_orderings@[l1]@[i1];
            let b = g.precedence_orderings@[l1]@[j1];
            (forall|m: int, k: int|
                0 <= m < k < declared_pairs(g).len()
                    && #[trigger] reverses(declared_pairs(g)[m], declared_pairs(g)[k])
                    ==> (same_entry(declared_pairs(g)[k].0, a) && same_entry(declared_pairs(g)[k].1, b))
                    || (same_entry(declared_pairs(g)[k].0, b) && same_entry(declared_pairs(g)[k].1, a)))
            ==> forall|k: int| #[trigger] first_conflict(declared_pairs(g), k)
                ==> entry_text(low(declared_pairs(g)[k])) == entry_text(low((a, b)))
                && entry_text(high(declared_pairs(g)[k])) == entry_text(high((a, b)))
        }),
{
    let ords = g.precedence_orderings@;
    let pairs = declared_pairs(g);
    let a = ords[l1]@[i1];
    let b = ords[l1]@[j1];
    lemma_ordering_pair_at(ords, l1, i1, j1, ords.len() as int);
    lemma_ordering_pair_at(ords, l2, i2, j2, ords.len() as int);
    let x = choose|x: int| 0 <= x < pairs.len() && #[trigger] pairs[x] == (ords[l1]@[i1], ords[l1]@[j1]);
    let y = choose|y: int| 0 <= y < pairs.len() && #[trigger] pairs[y] == (ords[l2]@[i2], ords[l2]@[j2]);
    if x < y {
        assert(reverses(pairs[x], pairs[y]));
        assert(conflict_at(pairs, y));
    } else {
        assert(x != y);
        assert(reverses(pairs[y], pairs[x]));
        assert(conflict_at(pairs, x));
    }
    lemma_entry_lt_total(a, b);
    assert forall|k: int| #[trigger] first_conflict(pairs, k) && (forall|m: int, kk: int|
        0 <= m < kk < pairs.len() && #[trigger] reverses(pairs[m], pairs[kk])
            ==> (same_entry(pairs[kk].0, a) && same_entry(pairs[kk].1, b))
            || (same_entry(pairs[kk].0, b) && same_entry(pairs[kk].1, a)))
        implies entry_text(low(pairs[k])) == entry_text(low((a, b)))
            && entry_text(high(pairs[k])) == entry_text(high((a, b))) by {
        let m = choose|m: int| 0 <= m < k && #[trigger] reverses(pairs[m], pairs[k]);
        assert(reverses(pairs[m], pairs[k]));
    }
}

/// `s` points into a table of `n_vars` variables or of `n_ext` external
/// tokens.
pub open spec fn symbol_in_range(s: Symbol, n_vars: int, n_ext: int) -> bool {
    ||| s.kind == SymbolType::NonTerminal && s.index < n_vars
    ||| s.kind == SymbolType::External && s.index < n_ext
}

/// Every symbol in `rule` is in range.
pub open spec fn rule_in_range(rule: Rule, n_vars: int, n_ext: int) -> bool
    decreases rule, 0int,
{
    match rule {
        Rule::Symbol(s) => symbol_in_range(s, n_vars, n_ext),
        Rule::Repeat(inner) => rule_in_range(*inner, n_vars, n_ext),
        Rule::Sequence(v) => rules_in_range(v, 0, n_vars, n_ext),
        Rule::Choice(v) => rules_in_range(v, 0, n_vars, n_ext),
        Rule::Metadata { params, rule: inner } => rule_in_range(*inner, n_vars, n_ext),
        _ => true,
    }
}

/// Every symbol in the rules `v[i..]` is in range.
pub open spec fn rules_in_range(v: Vec<Rule>, i: int, n_vars: int, n_ext: int) -> bool
    decreases v, v@.len() - i,
{
    0 <= i < v@.len() ==> rule_in_range(v[i], n_vars, n_ext) && rules_in_range(v, i + 1, n_vars, n_ext)
}

/// Every symbol of an interned grammar is in range of its own tables.
pub open spec fn interned_symbols_in_range(r: InternedGrammar) -> bool {
    let nv = r.variables@.len() as int;
    let ne = r.external_tokens@.len() as int;
    &&& forall|i: int| 0 <= i < nv ==> rule_in_range(#[trigger] r.variables@[i].rule, nv, ne)
    &&& forall|j: int| 0 <= j < ne ==> rule_in_range(#[trigger] r.external_tokens@[j].rule, nv, ne)
    &&& rules_in_range(r.extra_symbols, 0, nv, ne)
    &&& forall|k: int| 0 <= k < r.supertype_symbols@.len() ==> symbol_in_range(#[trigger] r.supertype_symbols@[k], nv, ne)
    &&& forall|k: int| 0 <= k < r.variables_to_inline@.len() ==> symbol_in_range(#[trigger] r.variables_to_inline@[k], nv, ne)
    &&& forall|c: int, k: int| 0 <= c < r.expected_conflicts@.len() && 0 <= k < r.expected_conflicts@[c]@.len()
        ==> symbol_in_range(#[trigger] r.expected_conflicts@[c]@[k], nv, ne)
    &&& r.word_token matches Some(w) ==> symbol_in_range(w, nv, ne)
    &&& forall|c: int| 0 <= c < r.reserved_word_sets@.len()
        ==> rules_in_range((#[trigger] r.reserved_word_sets@[c]).reserved_words, 0, nv, ne)
}

proof fn lemma_variable_index(vars: Seq<Variable>, name: Seq<char>, i: int)
    requires
        0 <= i,
    ensures
        variable_index(vars, name, i) matches Some(k) ==> i <= k < vars.len(),
    decreases vars.len() - i,
{
    if i < vars.len() {
        lemma_variable_index(vars, name, i + 1);
    }
}

proof fn lemma_external_index(exts: Seq<Rule>, name: Seq<char>, i: int)
    requires
        0 <= i,
    ensures
        external_index(exts, name, i) matches Some(k) ==> i <= k < exts.len(),
    decreases exts.len() - i,
{
    if i < exts.len() {
        lemma_external_index(exts, name, i + 1);
    }
}

proof fn lemma_symbol_named_in_range(g: InputGrammar, name: Seq<char>)
    ensures
        symbol_named(g, name) matches Some(s)
            ==> symbol_in_range(s, g.variables@.len() as int, g.external_tokens@.len() as int),
{
    lemma_variable_index(g.variables@, name, 0);
    lemma_external_index(g.external_tokens@, name, 0);
}

proof fn lemma_rule_in_range(orig: Rule, new: Rule, g: InputGrammar)
    requires
        interned_as(orig, new, g),
        rule_in_range(orig, g.variables@.len() as int, g.external_tokens@.len() as int),
    ensures
        rule_in_range(new, g.variables@.len() as int, g.external_tokens@.len() as int),
    decreases orig, 0int,
{
    match orig {
        Rule::NamedSymbol(n) => {
            lemma_symbol_named_in_range(g, n@);
        },
        Rule::Repeat(a) => {
            if let Rule::Repeat(b) = new {
                lemma_rule_in_range(*a, *b, g);
            }
        },
        Rule::Sequence(v) => {
            if let Rule::Sequence(w) = new {
                lemma_rules_in_range(v, w, 0, g);
            }
        },
        Rule::Choice(v) => {
            if let Rule::Choice(w) = new {
                lemma_rules_in_range(v, w, 0, g);
            }
        },
        Rule::Metadata { params, rule: a } => {
            if let Rule::Metadata { params: q, rule: b } = new {
                lemma_rule_in_range(*a, *b, g);
            }
        },
        _ => {},
    }
}

proof fn lemma_rules_in_range(v: Vec<Rule>, w: Vec<Rule>, i: int, g: InputGrammar)
    requires
        interned_among(v, w, i, g),
        rules_in_range(v, i, g.variables@.len() as int, g.external_tokens@.len() as int),
    ensures
        rules_in_range(w, i, g.variables@.len() as int, g.external_tokens@.len() as int),
    decreases v, v@.len() - i,
{
    if 0 <= i < v@.len() {
        lemma_rule_in_range(v[i], w[i], g);
        lemma_rules_in_range(v, w, i + 1, g);
    }
}

proof fn lemma_names_in_range(names: Seq<String>, syms: Seq<Symbol>, g: InputGrammar)
    requires
        resolved_as(names, syms, g),
    ensures
        forall|k: int| 0 <= k < syms.len()
            ==> symbol_in_range(#[trigger] syms[k], g.variables@.len() as int, g.external_tokens@.len() as int),
{
    assert forall|k: int| 0 <= k < syms.len()
        implies symbol_in_range(#[trigger] syms[k], g.variables@.len() as int, g.external_tokens@.len() as int) by {
        lemma_symbol_named_in_range(g, names[k]@);
    }
}

/// Interning leaves no dangling symbol: where the input's rules hold no
/// symbol out of range, every symbol of the interned grammar points into its
/// variables or its external tokens.
pub proof fn lemma_interned_symbols_in_range(g: InputGrammar, r: InternedGrammar)
    requires
        interned_grammar(g, r),
        forall|i: int| 0 <= i < g.variables@.len()
            ==> rule_in_range(#[trigger] g.variables@[i].rule, g.variables@.len() as int, g.external_tokens@.len() as int),
        forall|j: int| 0 <= j < g.external_tokens@.len()
            ==> rule_in_range(#[trigger] g.external_tokens@[j], g.variables@.len() as int, g.external_tokens@.len() as int),
        rules_in_range(g.extra_symbols, 0, g.variables@.len() as int, g.external_tokens@.len() as int),
        forall|c: int| 0 <= c < g.reserved_words@.len()
            ==> rules_in_range((#[trigger] g.reserved_words@[c]).reserved_words, 0, g.variables@.len() as int, g.external_tokens@.len() as int),
    ensures
        interned_symbols_in_range(r),
{
    let nv = g.variables@.len() as int;
    let ne = g.external_tokens@.len() as int;
    assert forall|i: int| 0 <= i < nv implies rule_in_range(#[trigger] r.variables@[i].rule, nv, ne) by {
        assert(interned_as(g.variables@[i].rule, r.variables@[i].rule, g));
        lemma_rule_in_range(g.variables@[i].rule, r.variables@[i].rule, g);
    }
    assert forall|j: int| 0 <= j < ne implies rule_in_range(#[trigger] r.external_tokens@[j].rule, nv, ne) by {
        assert(external_variable(g.external_tokens@[j], r.external_tokens@[j], g));
        lemma_rule_in_range(g.external_tokens@[j], r.external_tokens@[j].rule, g);
    }
    lemma_rules_in_range(g.extra_symbols, r.extra_symbols, 0, g);
    lemma_names_in_range(g.supertype_symbols@, r.supertype_symbols@, g);
    lemma_names_in_range(g.variables_to_inline@, r.variables_to_inline@, g);
    assert forall|c: int, k: int| 0 <= c < r.expected_conflicts@.len() && 0 <= k < r.expected_conflicts@[c]@.len()
        implies symbol_in_range(#[trigger] r.expected_conflicts@[c]@[k], nv, ne) by {
        assert(resolved_as(g.expected_conflicts@[c]@, r.expected_conflicts@[c]@, g));
        lemma_names_in_range(g.expected_conflicts@[c]@, r.expected_conflicts@[c]@, g);
    }
    if let Some(w) = g.word_token {
        lemma_symbol_named_in_range(g, w@);
    }
    assert forall|c: int| 0 <= c < r.reserved_word_sets@.len()
        implies rules_in_range((#[trigger] r.reserved_word_sets@[c]).reserved_words, 0, nv, ne) by {
        assert(interned_among(g.reserved_words@[c].reserved_words, r.reserved_word_sets@[c].reserved_words, 0, g));
        assert(rules_in_range(g.reserved_words@[c].reserved_words, 0, nv, ne));
        lemma_rules_in_range(g.reserved_words@[c].reserved_words, r.reserved_word_sets@[c].reserved_words, 0, g);
    }
}

/// Two rule trees have the same shape and the same contents.
pub open spec fn same_tree(a: Rule, b: Rule) -> bool
    decreases a, 0int,
{
    match a {
        Rule::Repeat(x) => b matches Rule::Repeat(y) && same_tree(*x, *y),
        Rule::Sequence(v) => b matches Rule::Sequence(w) && same_trees(v, w, 0),
        Rule::Choice(v) => b matches Rule::Choice(w) && same_trees(v, w, 0),
        Rule::Metadata { params, rule: x } => b matches Rule::Metadata { params: q, rule: y }
            && q == params && same_tree(*x, *y),
        _ => b == a,
    }
}

/// The rules `v[i..]` and `w[i..]` are pairwise the same trees.
pub open spec fn same_trees(v: Vec<Rule>, w: Vec<Rule>, i: int) -> bool
    decreases v, v@.len() - i,
{
    &&& v@.len() == w@.len()
    &&& 0 <= i < v@.len() ==> same_tree(v[i], w[i]) && same_trees(v, w, i + 1)
}

/// Two interned grammars hold the same values.
pub open spec fn same_interned(r1: InternedGrammar, r2: InternedGrammar) -> bool {
    &&& r1.variables@.len() == r2.variables@.len()
    &&& forall|i: int| 0 <= i < r1.variables@.len() ==> {
        &&& (#[trigger] r1.variables@[i]).name@ == r2.variables@[i].name@
        &&& r1.variables@[i].kind == r2.variables@[i].kind
        &&& same_tree(r1.variables@[i].rule, r2.variables@[i].rule)
    }
    &&& r1.external_tokens@.len() == r2.external_tokens@.len()
    &&& forall|j: int| 0 <= j < r1.external_tokens@.len() ==> {
        &&& (#[trigger] r1.external_tokens@[j]).name@ == r2.external_tokens@[j].name@
        &&& r1.external_tokens@[j].kind == r2.external_tokens@[j].kind
        &&& same_tree(r1.external_tokens@[j].rule, r2.external_tokens@[j].rule)
    }
    &&& same_trees(r1.extra_symbols, r2.extra_symbols, 0)
    &&& r1.supertype_symbols@ == r2.supertype_symbols@
    &&& r1.variables_to_inline@ == r2.variables_to_inline@
    &&& r1.expected_conflicts@.len() == r2.expected_conflicts@.len()
    &&& forall|c: int| 0 <= c < r1.expected_conflicts@.len()
        ==> (#[trigger] r1.expected_conflicts@[c])@ == r2.expected_conflicts@[c]@
    &&& r1.word_token == r2.word_token
    &&& r1.precedence_orderings@.len() == r2.precedence_orderings@.len()
    &&& forall|l: int| 0 <= l < r1.precedence_orderings@.len()
        ==> (#[trigger] r1.precedence_orderings@[l])@ == r2.precedence_orderings@[l]@
    &&& r1.reserved_word_sets@.len() == r2.reserved_word_sets@.len()
    &&& forall|c: int| 0 <= c < r1.reserved_word_sets@.len() ==> {
        &&& (#[trigger] r1.reserved_word_sets@[c]).name@ == r2.reserved_word_sets@[c].name@
        &&& same_trees(r1.reserved_word_sets@[c].reserved_words, r2.reserved_word_sets@[c].reserved_words, 0)
    }
}

proof fn lemma_interned_unique(o: Rule, n1: Rule, n2: Rule, g: InputGrammar)
    requires
        interned_as(o, n1, g),
        interned_as(o, n2, g),
    ensures
        same_tree(n1, n2),
    decreases o, 0int,
{
    match o {
        Rule::Repeat(a) => {
            if let (Rule::Repeat(b1), Rule::Repeat(b2)) = (n1, n2) {
                lemma_interned_unique(*a, *b1, *b2, g);
            }
        },
        Rule::Sequence(v) => {
            if let (Rule::Sequence(w1), Rule::Sequence(w2)) = (n1, n2) {
                lemma_interned_unique_among(v, w1, w2, 0, g);
            }
        },
        Rule::Choice(v) => {
            if let (Rule::Choice(w1), Rule::Choice(w2)) = (n1, n2) {
                lemma_interned_unique_among(v, w1, w2, 0, g);
            }
        },
        Rule::Metadata { params, rule: a } => {
            if let (Rule::Metadata { params: q1, rule: b1 }, Rule::Metadata { params: q2, rule: b2 }) = (n1, n2) {
                lemma_interned_unique(*a, *b1, *b2, g);
            }
        },
        _ => {},
    }
}

proof fn lemma_interned_unique_among(v: Vec<Rule>, w1: Vec<Rule>, w2: Vec<Rule>, i: int, g: InputGrammar)
    requires
        interned_among(v, w1, i, g),
        interned_among(v, w2, i, g),
    ensures
        same_trees(w1, w2, i),
    decreases v, v@.len() - i,
{
    if 0 <= i < v@.len() {
        lemma_interned_unique(v[i], w1[i], w2[i], g);
        lemma_interned_unique_among(v, w1, w2, i + 1, g);
    }
}

proof fn lemma_resolved_unique(names: Seq<String>, s1: Seq<Symbol>, s2: Seq<Symbol>, g: InputGrammar)
    requires
        resolved_as(names, s1, g),
        resolved_as(names, s2, g),
    ensures
        s1 == s2,
{
    assert forall|k: int| 0 <= k < s1.len() implies s1[k] == s2[k] by {
        assert(symbol_named(g, names[k]@) == Some(s1[k]));
    }
    assert(s1 =~= s2);
}

/// Interning is determined by its input: any two results of interning the
/// same grammar hold the same values.
pub proof fn lemma_interning_deterministic(g: InputGrammar, r1: InternedGrammar, r2: InternedGrammar)
    requires
        interned_grammar(g, r1),
        interned_grammar(g, r2),
    ensures
        same_interned(r1, r2),
{
    assert forall|i: int| 0 <= i < r1.variables@.len() implies
        same_tree((#[trigger] r1.variables@[i]).rule, r2.variables@[i].rule) by {
        lemma_interned_unique(g.variables@[i].rule, r1.variables@[i].rule, r2.variables@[i].rule, g);
    }
    assert forall|j: int| 0 <= j < r1.external_tokens@.len() implies {
        &&& (#[trigger] r1.external_tokens@[j]).name@ == r2.external_tokens@[j].name@
        &&& r1.external_tokens@[j].kind == r2.external_tokens@[j].kind
        &&& same_tree(r1.external_tokens@[j].rule, r2.external_tokens@[j].rule)
    } by {
        assert(external_variable(g.external_tokens@[j], r1.external_tokens@[j], g));
        assert(external_variable(g.external_tokens@[j], r2.external_tokens@[j], g));
        lemma_interned_unique(g.external_tokens@[j], r1.external_tokens@[j].rule, r2.external_tokens@[j].rule, g);
    }
    lemma_interned_unique_among(g.extra_symbols, r1.extra_symbols, r2.extra_symbols, 0, g);
    lemma_resolved_unique(g.supertype_symbols@, r1.supertype_symbols@, r2.supertype_symbols@, g);
    lemma_resolved_unique(g.variables_to_inline@, r1.variables_to_inline@, r2.variables_to_inline@, g);
    assert forall|c: int| 0 <= c < r1.expected_conflicts@.len() implies
        (#[trigger] r1.expected_conflicts@[c])@ == r2.expected_conflicts@[c]@ by {
        assert(resolved_as(g.expected_conflicts@[c]@, r1.expected_conflicts@[c]@, g));
        assert(resolved_as(g.expected_conflicts@[c]@, r2.expected_conflicts@[c]@, g));
        lemma_resolved_unique(g.expected_conflicts@[c]@, r1.expected_conflicts@[c]@, r2.expected_conflicts@[c]@, g);
    }
    assert forall|c: int| 0 <= c < r1.reserved_word_sets@.len() implies {
        &&& (#[trigger] r1.reserved_word_sets@[c]).name@ == r2.reserved_word_sets@[c].name@
        &&& same_trees(r1.reserved_word_sets@[c].reserved_words, r2.reserved_word_sets@[c].reserved_words, 0)
    } by {
        let sets = g.reserved_words@;
        assert(interned_among(sets[c].reserved_words, r1.reserved_word_sets@[c].reserved_words, 0, g));
        assert(interned_among(sets[c].reserved_words, r2.reserved_word_sets@[c].reserved_words, 0, g));
        lemma_interned_unique_among(sets[c].reserved_words, r1.reserved_word_sets@[c].reserved_words,
            r2.reserved_word_sets@[c].reserved_words, 0, g);
    }
}

/// Precedence validation is determined by its input: any two errors that it
/// may report for the same grammar hold the same text.
pub proof fn lemma_validation_deterministic(g: InputGrammar, e1: ValidatePrecedenceError, e2: ValidatePrecedenceError)
    requires
        reports_precedence_error(g, e1),
        reports_precedence_error(g, e2),
    ensures
        e1 matches ValidatePrecedenceError::Ordering(o1) ==> e2 matches ValidatePrecedenceError::Ordering(o2)
            && o1.precedence_1@ == o2.precedence_1@ && o1.precedence_2@ == o2.precedence_2@,
        e1 matches ValidatePrecedenceError::Undeclared(u1) ==> e2 matches ValidatePrecedenceError::Undeclared(u2)
            && u1.precedence@ == u2.precedence@ && u1.rule@ == u2.rule@,
{
    let pairs = declared_pairs(g);
    if let ValidatePrecedenceError::Ordering(o1) = e1 {
        let k1 = choose|k: int| first_conflict(pairs, k)
            && o1.precedence_1@ == entry_text(low(#[trigger] pairs[k]))
            && o1.precedence_2@ == entry_text(high(pairs[k]));
        assert(has_conflict(pairs));
        if let ValidatePrecedenceError::Ordering(o2) = e2 {
            let k2 = choose|k: int| first_conflict(pairs, k)
                && o2.precedence_1@ == entry_text(low(#[trigger] pairs[k]))
                && o2.precedence_2@ == entry_text(high(pairs[k]));
            if k1 < k2 {
                assert(!conflict_at(pairs, k1));
            } else if k2 < k1 {
                assert(!conflict_at(pairs, k2));
            }
        }
    }
    if let ValidatePrecedenceError::Undeclared(u1) = e1 {
        if let ValidatePrecedenceError::Ordering(o2) = e2 {
            let k2 = choose|k: int| first_conflict(pairs, k)
                && o2.precedence_1@ == entry_text(low(#[trigger] pairs[k]))
                && o2.precedence_2@ == entry_text(high(pairs[k]));
            assert(has_conflict(pairs));
        }
    }
}

} // verus!
